//! Source identifiers.
//!
//! An FDSN source identifier names a channel by network, station, location,
//! band, source and subsource:
//!
//! ```text
//! FDSN:NET_STA_LOC_BAND_SOURCE_SUBSOURCE
//! ```
//!
//! Network: 1 to 8 of `A-Z0-9`.  Station: 1 to 8 of `A-Z0-9-`.  Location: 0
//! to 8 of `A-Z0-9-`.  Band and subsource: any number of `A-Z0-9`.  Source:
//! one or more of `A-Z0-9`.  Any other text is kept as it is.
//! See <http://docs.fdsn.org/projects/source-identifiers/en/v1.0/index.html>.

use crate::mseed_error::MSeedError;
use crate::text::{lemma_encode_utf8_concat, text_of_utf8};
use vstd::prelude::*;
use vstd::string::{StrSliceExecFns, StringExecFns};
use vstd::utf8::{encode_utf8, is_ascii_chars, valid_utf8};

verus! {

// ---------------------------------------------------------------------------
// The grammar
// ---------------------------------------------------------------------------
/// The text `FDSN:` that every FDSN source identifier starts with.
pub open spec fn prefix() -> Seq<char> {
    seq!['F', 'D', 'S', 'N', ':']
}

/// The text `_` that stands between the parts of an identifier.
pub open spec fn separator() -> Seq<char> {
    seq!['_']
}

/// Whether `c` may stand in a part of an identifier: an upper case letter, a
/// digit or, where `dash` allows it, a dash.
pub open spec fn is_code_char(c: char, dash: bool) -> bool {
    ('A' <= c <= 'Z') || ('0' <= c <= '9') || (dash && c == '-')
}

/// Whether `part` holds nothing but characters that `is_code_char` accepts.
pub open spec fn is_code(part: Seq<char>, dash: bool) -> bool {
    forall|i: int| 0 <= i < part.len() ==> is_code_char(#[trigger] part[i], dash)
}

/// Whether the six parts are within the limits of the grammar.
pub open spec fn parts_allowed(
    network: Seq<char>,
    station: Seq<char>,
    location: Seq<char>,
    band: Seq<char>,
    source: Seq<char>,
    subsource: Seq<char>,
) -> bool {
    &&& 1 <= network.len() <= 8
    &&& is_code(network, false)
    &&& 1 <= station.len() <= 8
    &&& is_code(station, true)
    &&& location.len() <= 8
    &&& is_code(location, true)
    &&& is_code(band, false)
    &&& 1 <= source.len()
    &&& is_code(source, false)
    &&& is_code(subsource, false)
}

/// The text of the identifier with the given parts.
pub open spec fn fdsn_text(
    network: Seq<char>,
    station: Seq<char>,
    location: Seq<char>,
    band: Seq<char>,
    source: Seq<char>,
    subsource: Seq<char>,
) -> Seq<char> {
    prefix() + network + separator() + station + separator() + location + separator() + band
        + separator() + source + separator() + subsource
}

/// Whether `text` is an FDSN source identifier: the text of six parts within
/// the limits of the grammar.
pub open spec fn matches_grammar(text: Seq<char>) -> bool {
    exists|
        network: Seq<char>,
        station: Seq<char>,
        location: Seq<char>,
        band: Seq<char>,
        source: Seq<char>,
        subsource: Seq<char>,
    |
        parts_allowed(network, station, location, band, source, subsource) && text
            == #[trigger] fdsn_text(network, station, location, band, source, subsource)
}

/// Where a part that starts at `from` ends: at `end`, the first underscore
/// at or behind `from`, or the end of the text.
pub open spec fn part_ends(text: Seq<char>, from: int, end: int) -> bool {
    &&& from <= end <= text.len()
    &&& forall|j: int| from <= j < end ==> #[trigger] text[j] != '_'
    &&& end < text.len() ==> text[end] == '_'
}

/// Where the parts of an identifier are in its text.
proof fn lemma_parts_in_text(
    network: Seq<char>,
    station: Seq<char>,
    location: Seq<char>,
    band: Seq<char>,
    source: Seq<char>,
    subsource: Seq<char>,
)
    requires
        parts_allowed(network, station, location, band, source, subsource),
    ensures
        ({
            let text = fdsn_text(network, station, location, band, source, subsource);
            let e1: int = 5int + network.len();
            let e2: int = e1 + 1 + station.len();
            let e3: int = e2 + 1 + location.len();
            let e4: int = e3 + 1 + band.len();
            let e5: int = e4 + 1 + source.len();
            &&& text.len() == e5 + 1 + subsource.len()
            &&& text.subrange(0, 5) == prefix()
            &&& text.subrange(5, e1) == network
            &&& text.subrange(e1 + 1, e2) == station
            &&& text.subrange(e2 + 1, e3) == location
            &&& text.subrange(e3 + 1, e4) == band
            &&& text.subrange(e4 + 1, e5) == source
            &&& text.subrange(e5 + 1, text.len() as int) == subsource
            &&& part_ends(text, 5, e1)
            &&& part_ends(text, e1 + 1, e2)
            &&& part_ends(text, e2 + 1, e3)
            &&& part_ends(text, e3 + 1, e4)
            &&& part_ends(text, e4 + 1, e5)
            &&& part_ends(text, e5 + 1, text.len() as int)
            &&& is_ascii_chars(text)
        }),
{
    let text = fdsn_text(network, station, location, band, source, subsource);
    let e1: int = 5int + network.len();
    let e2: int = e1 + 1 + station.len();
    let e3: int = e2 + 1 + location.len();
    let e4: int = e3 + 1 + band.len();
    let e5: int = e4 + 1 + source.len();
    assert(text.subrange(0, 5) =~= prefix());
    assert(text.subrange(5, e1) =~= network);
    assert(text.subrange(e1 + 1, e2) =~= station);
    assert(text.subrange(e2 + 1, e3) =~= location);
    assert(text.subrange(e3 + 1, e4) =~= band);
    assert(text.subrange(e4 + 1, e5) =~= source);
    assert(text.subrange(e5 + 1, text.len() as int) =~= subsource);
    assert forall|j: int| 5 <= j < e1 implies #[trigger] text[j] != '_' by {
        assert(is_code_char(network[j - 5], false));
    }
    assert forall|j: int| e1 + 1 <= j < e2 implies #[trigger] text[j] != '_' by {
        assert(is_code_char(station[j - e1 - 1], true));
    }
    assert forall|j: int| e2 + 1 <= j < e3 implies #[trigger] text[j] != '_' by {
        assert(is_code_char(location[j - e2 - 1], true));
    }
    assert forall|j: int| e3 + 1 <= j < e4 implies #[trigger] text[j] != '_' by {
        assert(is_code_char(band[j - e3 - 1], false));
    }
    assert forall|j: int| e4 + 1 <= j < e5 implies #[trigger] text[j] != '_' by {
        assert(is_code_char(source[j - e4 - 1], false));
    }
    assert forall|j: int| e5 + 1 <= j < text.len() implies #[trigger] text[j] != '_' by {
        assert(is_code_char(subsource[j - e5 - 1], false));
    }
    assert forall|i: int| 0 <= i < text.len() implies '\0' <= #[trigger] text[i] <= '\u{7f}' by {
        if i < 5 {
            assert(text[i] == prefix()[i]);
        } else if i < e1 {
            assert(is_code_char(network[i - 5], false));
        } else if i == e1 {
        } else if i < e2 {
            assert(is_code_char(station[i - e1 - 1], true));
        } else if i == e2 {
        } else if i < e3 {
            assert(is_code_char(location[i - e2 - 1], true));
        } else if i == e3 {
        } else if i < e4 {
            assert(is_code_char(band[i - e3 - 1], false));
        } else if i == e4 {
        } else if i < e5 {
            assert(is_code_char(source[i - e4 - 1], false));
        } else if i == e5 {
        } else {
            assert(is_code_char(subsource[i - e5 - 1], false));
        }
    }
}

/// A part ends in one place only.
proof fn lemma_part_ends_once(text: Seq<char>, from: int, end: int, other: int)
    requires
        part_ends(text, from, end),
        part_ends(text, from, other),
    ensures
        end == other,
{
    if end < other {
        assert(text[end] != '_');
    } else if other < end {
        assert(text[other] != '_');
    }
}

/// Where the start of the next part is, once a part has ended at `end`.
pub open spec fn next_start(text: Seq<char>, end: int) -> int {
    if end < text.len() {
        end + 1
    } else {
        text.len() as int
    }
}

/// Whether `text` is an identifier whose first five parts end at `e1` to
/// `e5`.
pub open spec fn splits_at(text: Seq<char>, e1: int, e2: int, e3: int, e4: int, e5: int) -> bool {
    &&& 5 <= e1 < e2 < e3 < e4 < e5 < text.len()
    &&& text.subrange(0, 5) == prefix()
    &&& text[e1] == '_'
    &&& text[e2] == '_'
    &&& text[e3] == '_'
    &&& text[e4] == '_'
    &&& text[e5] == '_'
    &&& parts_allowed(
        text.subrange(5, e1),
        text.subrange(e1 + 1, e2),
        text.subrange(e2 + 1, e3),
        text.subrange(e3 + 1, e4),
        text.subrange(e4 + 1, e5),
        text.subrange(e5 + 1, text.len() as int),
    )
}

/// A text that splits into allowed parts is the text of these parts.
proof fn lemma_split_is_text(text: Seq<char>, e1: int, e2: int, e3: int, e4: int, e5: int)
    requires
        splits_at(text, e1, e2, e3, e4, e5),
    ensures
        text == fdsn_text(
            text.subrange(5, e1),
            text.subrange(e1 + 1, e2),
            text.subrange(e2 + 1, e3),
            text.subrange(e3 + 1, e4),
            text.subrange(e4 + 1, e5),
            text.subrange(e5 + 1, text.len() as int),
        ),
{
    let joined = fdsn_text(
        text.subrange(5, e1),
        text.subrange(e1 + 1, e2),
        text.subrange(e2 + 1, e3),
        text.subrange(e3 + 1, e4),
        text.subrange(e4 + 1, e5),
        text.subrange(e5 + 1, text.len() as int),
    );
    assert(joined.len() == text.len());
    assert forall|i: int| 0 <= i < text.len() implies text[i] == joined[i] by {
        if i < 5 {
            assert(text.subrange(0, 5)[i] == text[i]);
        }
    }
    assert(text =~= joined);
}

/// In the text of an identifier the parts end where the underscores are.
proof fn lemma_text_splits(
    text: Seq<char>,
    e1: int,
    e2: int,
    e3: int,
    e4: int,
    e5: int,
    e6: int,
)
    requires
        matches_grammar(text),
        part_ends(text, 5, e1),
        part_ends(text, next_start(text, e1), e2),
        part_ends(text, next_start(text, e2), e3),
        part_ends(text, next_start(text, e3), e4),
        part_ends(text, next_start(text, e4), e5),
        part_ends(text, next_start(text, e5), e6),
    ensures
        splits_at(text, e1, e2, e3, e4, e5),
        e6 == text.len(),
{
    let (network, station, location, band, source, subsource) = choose|
        network: Seq<char>,
        station: Seq<char>,
        location: Seq<char>,
        band: Seq<char>,
        source: Seq<char>,
        subsource: Seq<char>,
    |
        parts_allowed(network, station, location, band, source, subsource) && text
            == #[trigger] fdsn_text(network, station, location, band, source, subsource);
    lemma_parts_in_text(network, station, location, band, source, subsource);
    let end1: int = 5int + network.len();
    let end2: int = end1 + 1 + station.len();
    let end3: int = end2 + 1 + location.len();
    let end4: int = end3 + 1 + band.len();
    let end5: int = end4 + 1 + source.len();
    lemma_part_ends_once(text, 5, e1, end1);
    lemma_part_ends_once(text, end1 + 1, e2, end2);
    lemma_part_ends_once(text, end2 + 1, e3, end3);
    lemma_part_ends_once(text, end3 + 1, e4, end4);
    lemma_part_ends_once(text, end4 + 1, e5, end5);
    lemma_part_ends_once(text, end5 + 1, e6, text.len() as int);
}

/// The texts of the grammar start with `FDSN:`.
proof fn lemma_grammar_has_prefix(text: Seq<char>)
    requires
        matches_grammar(text),
    ensures
        text.len() >= 5,
        text.subrange(0, 5) == prefix(),
{
    let (network, station, location, band, source, subsource) = choose|
        network: Seq<char>,
        station: Seq<char>,
        location: Seq<char>,
        band: Seq<char>,
        source: Seq<char>,
        subsource: Seq<char>,
    |
        parts_allowed(network, station, location, band, source, subsource) && text
            == #[trigger] fdsn_text(network, station, location, band, source, subsource);
    lemma_parts_in_text(network, station, location, band, source, subsource);
}

/// The texts of the grammar are ASCII.
proof fn lemma_grammar_is_ascii(text: Seq<char>)
    requires
        matches_grammar(text),
    ensures
        is_ascii_chars(text),
{
    let (network, station, location, band, source, subsource) = choose|
        network: Seq<char>,
        station: Seq<char>,
        location: Seq<char>,
        band: Seq<char>,
        source: Seq<char>,
        subsource: Seq<char>,
    |
        parts_allowed(network, station, location, band, source, subsource) && text
            == #[trigger] fdsn_text(network, station, location, band, source, subsource);
    lemma_parts_in_text(network, station, location, band, source, subsource);
}

// ---------------------------------------------------------------------------
// FDSN source identifiers
// ---------------------------------------------------------------------------
/// An FDSN source identifier parsed into its component parts.
#[derive(Debug, Clone, PartialEq, Eq)]
pub struct FdsnSourceIdentifier {
    pub network: String,
    pub station: String,
    pub location: String,
    pub band: String,
    pub source: String,
    pub subsource: String,
}

/// Finds the end of the part of `id` that starts at `from`.
fn part_end(id: &str, from: usize) -> (end: usize)
    requires
        id.is_ascii(),
        from <= id@.len(),
    ensures
        part_ends(id@, from as int, end as int),
{
    let n = id.as_bytes().len();
    proof {
        vstd::string::is_ascii_spec_bytes(id);
    }
    let mut end = from;
    while end < n && id.get_ascii(end) != 95
        invariant
            id.is_ascii(),
            n == id@.len(),
            from <= end <= n,
            forall|j: int| from <= j < end ==> #[trigger] id@[j] != '_',
        decreases n - end,
    {
        end += 1;
    }
    end
}

/// Whether `id[from..to]` holds code characters only.
fn part_is_code(id: &str, from: usize, to: usize, dash: bool) -> (ok: bool)
    requires
        id.is_ascii(),
        from <= to <= id@.len(),
    ensures
        ok == is_code(id@.subrange(from as int, to as int), dash),
{
    let ghost part = id@.subrange(from as int, to as int);
    let mut k = from;
    while k < to
        invariant
            id.is_ascii(),
            from <= k <= to <= id@.len(),
            part == id@.subrange(from as int, to as int),
            forall|i: int| 0 <= i < k - from ==> is_code_char(#[trigger] part[i], dash),
        decreases to - k,
    {
        let b = id.get_ascii(k);
        let ok = (65 <= b && b <= 90) || (48 <= b && b <= 57) || (dash && b == 45);
        assert(part[k - from] == id@[k as int]);
        assert('\0' <= id@[k as int] <= '\u{7f}');
        assert(ok == is_code_char(id@[k as int], dash));
        if !ok {
            return false;
        }
        k += 1;
    }
    true
}

/// Whether `id` starts with `FDSN:`.
fn has_prefix(id: &str) -> (found: bool)
    requires
        id.is_ascii(),
    ensures
        found == (id@.len() >= 5 && id@.subrange(0, 5) == prefix()),
{
    let n = id.as_bytes().len();
    proof {
        vstd::string::is_ascii_spec_bytes(id);
    }
    if n < 5 {
        return false;
    }
    let found = id.get_ascii(0) == 70 && id.get_ascii(1) == 68 && id.get_ascii(2) == 83
        && id.get_ascii(3) == 78 && id.get_ascii(4) == 58;
    proof {
        let head = id@.subrange(0, 5);
        assert(head[0] == id@[0] && head[1] == id@[1] && head[2] == id@[2] && head[3] == id@[3]
            && head[4] == id@[4]);
        if found {
            assert(head =~= prefix());
        }
    }
    found
}

/// Where the part behind the one that ends at `end` starts.
fn start_behind(id: &str, end: usize) -> (start: usize)
    requires
        id.is_ascii(),
        end <= id@.len(),
    ensures
        start == next_start(id@, end as int),
        start <= id@.len(),
{
    let n = id.as_bytes().len();
    proof {
        vstd::string::is_ascii_spec_bytes(id);
    }
    if end < n {
        end + 1
    } else {
        n
    }
}

/// Whether the parts of `id` that end at `e1` to `e6` are six parts within
/// the limits of the grammar that make up all of `id`.
fn parts_within_limits(
    id: &str,
    e1: usize,
    e2: usize,
    e3: usize,
    e4: usize,
    e5: usize,
    e6: usize,
) -> (ok: bool)
    requires
        id.is_ascii(),
        id@.len() >= 5,
        id@.subrange(0, 5) == prefix(),
        part_ends(id@, 5, e1 as int),
        part_ends(id@, next_start(id@, e1 as int), e2 as int),
        part_ends(id@, next_start(id@, e2 as int), e3 as int),
        part_ends(id@, next_start(id@, e3 as int), e4 as int),
        part_ends(id@, next_start(id@, e4 as int), e5 as int),
        part_ends(id@, next_start(id@, e5 as int), e6 as int),
    ensures
        ok == (splits_at(id@, e1 as int, e2 as int, e3 as int, e4 as int, e5 as int) && e6
            == id@.len()),
{
    let n = id.as_bytes().len();
    proof {
        vstd::string::is_ascii_spec_bytes(id);
    }
    if !(e1 < n && e2 < n && e3 < n && e4 < n && e5 < n && e6 == n) {
        return false;
    }
    if !(1 <= e1 - 5 && e1 - 5 <= 8 && 1 <= e2 - e1 - 1 && e2 - e1 - 1 <= 8 && e3 - e2 - 1 <= 8 && 1
        <= e5 - e4 - 1) {
        return false;
    }
    let network_ok = part_is_code(id, 5, e1, false);
    let station_ok = part_is_code(id, e1 + 1, e2, true);
    let location_ok = part_is_code(id, e2 + 1, e3, true);
    let band_ok = part_is_code(id, e3 + 1, e4, false);
    let source_ok = part_is_code(id, e4 + 1, e5, false);
    let subsource_ok = part_is_code(id, e5 + 1, e6, false);
    network_ok && station_ok && location_ok && band_ok && source_ok && subsource_ok
}

impl FdsnSourceIdentifier {
    /// Whether the parts are within the limits of the grammar.
    pub open spec fn is_well_formed(&self) -> bool {
        parts_allowed(
            self.network@,
            self.station@,
            self.location@,
            self.band@,
            self.source@,
            self.subsource@,
        )
    }

    /// Whether the identifier is the made-up channel `FDSN:XX_STA_00_B_H_Z`.
    pub open spec fn is_fake_channel(&self) -> bool {
        &&& self.network@ == seq!['X', 'X']
        &&& self.station@ == seq!['S', 'T', 'A']
        &&& self.location@ == seq!['0', '0']
        &&& self.band@ == seq!['B']
        &&& self.source@ == seq!['H']
        &&& self.subsource@ == seq!['Z']
    }

    /// The identifier as text: the `FDSN:` prefix and the six parts with
    /// underscores between them.
    pub open spec fn text(&self) -> Seq<char> {
        fdsn_text(
            self.network@,
            self.station@,
            self.location@,
            self.band@,
            self.source@,
            self.subsource@,
        )
    }

    /// The number of bytes of the identifier as text: 5 for the prefix, 5 for
    /// the separators, and the parts.
    pub open spec fn byte_length(&self) -> nat {
        10 + encode_utf8(self.network@).len() + encode_utf8(self.station@).len() + encode_utf8(
            self.location@,
        ).len() + encode_utf8(self.band@).len() + encode_utf8(self.source@).len() + encode_utf8(
            self.subsource@,
        ).len()
    }

    /// Whether the identifier is short enough for the length field of a
    /// header.
    pub fn fits(&self) -> (fits: bool)
        ensures
            fits == (self.byte_length() <= 255),
    {
        let network = self.network.as_str().as_bytes().len();
        let station = self.station.as_str().as_bytes().len();
        let location = self.location.as_str().as_bytes().len();
        let band = self.band.as_str().as_bytes().len();
        let source = self.source.as_str().as_bytes().len();
        let subsource = self.subsource.as_str().as_bytes().len();
        network <= 255 && station <= 255 && location <= 255 && band <= 255 && source <= 255
            && subsource <= 255 && 10 + network + station + location + band + source + subsource
            <= 255
    }

    /// Calculates the length when turned back into a string. This includes
    /// 5 bytes for the `FDSN:` prefix and the 5 underscore separators.
    pub fn calc_len(&self) -> (len: u8)
        requires
            self.byte_length() <= 255,
        ensures
            len == self.byte_length(),
    {
        let network = self.network.as_str().as_bytes().len();
        let station = self.station.as_str().as_bytes().len();
        let location = self.location.as_str().as_bytes().len();
        let band = self.band.as_str().as_bytes().len();
        let source = self.source.as_str().as_bytes().len();
        let subsource = self.subsource.as_str().as_bytes().len();
        (10 + network + station + location + band + source + subsource) as u8
    }

    /// The identifier as text.
    pub fn to_string(&self) -> (text: String)
        ensures
            text@ == self.text(),
    {
        proof {
            reveal_strlit("FDSN:");
            reveal_strlit("_");
        }
        let mut text = String::from_str("FDSN:");
        assert(text@ =~= prefix());
        assert("_"@ =~= separator());
        text.append(self.network.as_str());
        text.append("_");
        text.append(self.station.as_str());
        text.append("_");
        text.append(self.location.as_str());
        text.append("_");
        text.append(self.band.as_str());
        text.append("_");
        text.append(self.source.as_str());
        text.append("_");
        text.append(self.subsource.as_str());
        text
    }

    /// The bytes of the identifier as text.
    pub fn as_bytes(&self) -> (bytes: Vec<u8>)
        ensures
            bytes@ == encode_utf8(self.text()),
            bytes@.len() == self.byte_length(),
    {
        proof {
            lemma_byte_length(*self);
        }
        self.to_string().as_str().as_bytes_vec()
    }

    /// Parses an identifier from its bytes.
    ///
    /// Fails if the bytes are not UTF-8 or their text is not of the grammar.
    pub fn from_utf8(vec: Vec<u8>) -> (sid: Result<FdsnSourceIdentifier, MSeedError>)
        ensures
            match sid {
                Ok(f) => valid_utf8(vec@) && f.is_well_formed() && encode_utf8(f.text()) == vec@,
                Err(MSeedError::FromUtf8Error) => !valid_utf8(vec@),
                Err(MSeedError::IdentifierParse(raw, part)) => valid_utf8(vec@) && encode_utf8(
                    raw@,
                ) == vec@ && part@ == "all"@ && !matches_grammar(raw@),
                Err(_) => false,
            },
    {
        match text_of_utf8(vec) {
            None => Err(MSeedError::FromUtf8Error),
            Some(text) => FdsnSourceIdentifier::parse(text.as_str()),
        }
    }

    /// Parses an identifier.
    ///
    /// Succeeds on the texts of the grammar, with the parts that make up the
    /// text, and fails on every other text.
    pub fn parse(id: &str) -> (sid: Result<FdsnSourceIdentifier, MSeedError>)
        ensures
            match sid {
                Ok(f) => f.is_well_formed() && f.text() == id@,
                Err(MSeedError::IdentifierParse(raw, part)) => raw@ == id@ && part@ == "all"@
                    && !matches_grammar(id@),
                Err(_) => false,
            },
    {
        if !id.is_ascii() {
            proof {
                if matches_grammar(id@) {
                    lemma_grammar_is_ascii(id@);
                }
            }
            return Err(
                MSeedError::IdentifierParse(String::from_str(id), String::from_str("all")),
            );
        }
        if !has_prefix(id) {
            proof {
                if matches_grammar(id@) {
                    lemma_grammar_has_prefix(id@);
                }
            }
            return Err(
                MSeedError::IdentifierParse(String::from_str(id), String::from_str("all")),
            );
        }
        let e1 = part_end(id, 5);
        let e2 = part_end(id, start_behind(id, e1));
        let e3 = part_end(id, start_behind(id, e2));
        let e4 = part_end(id, start_behind(id, e3));
        let e5 = part_end(id, start_behind(id, e4));
        let e6 = part_end(id, start_behind(id, e5));
        let ok = parts_within_limits(id, e1, e2, e3, e4, e5, e6);
        proof {
            if matches_grammar(id@) {
                lemma_text_splits(
                    id@,
                    e1 as int,
                    e2 as int,
                    e3 as int,
                    e4 as int,
                    e5 as int,
                    e6 as int,
                );
            }
        }
        if !ok {
            return Err(
                MSeedError::IdentifierParse(String::from_str(id), String::from_str("all")),
            );
        }
        proof {
            lemma_split_is_text(id@, e1 as int, e2 as int, e3 as int, e4 as int, e5 as int);
        }
        Ok(
            FdsnSourceIdentifier {
                network: String::from_str(id.substring_ascii(5, e1)),
                station: String::from_str(id.substring_ascii(e1 + 1, e2)),
                location: String::from_str(id.substring_ascii(e2 + 1, e3)),
                band: String::from_str(id.substring_ascii(e3 + 1, e4)),
                source: String::from_str(id.substring_ascii(e4 + 1, e5)),
                subsource: String::from_str(id.substring_ascii(e5 + 1, e6)),
            },
        )
    }

    /// Whether `id` is an FDSN source identifier: a text of the grammar.
    pub fn is_match(id: &str) -> (matches: bool)
        ensures
            matches == matches_grammar(id@),
    {
        match FdsnSourceIdentifier::parse(id) {
            Ok(sid) => {
                assert(matches_grammar(id@)) by {
                    assert(id@ == fdsn_text(
                        sid.network@,
                        sid.station@,
                        sid.location@,
                        sid.band@,
                        sid.source@,
                        sid.subsource@,
                    ));
                }
                true
            },
            Err(_) => false,
        }
    }

    /// A made-up channel, for records whose origin is of no interest.
    pub fn create_fake_channel() -> (sid: FdsnSourceIdentifier)
        ensures
            sid.is_fake_channel(),
            sid.is_well_formed(),
    {
        proof {
            reveal_strlit("XX");
            reveal_strlit("STA");
            reveal_strlit("00");
            reveal_strlit("B");
            reveal_strlit("H");
            reveal_strlit("Z");
        }
        let sid = FdsnSourceIdentifier {
            network: String::from_str("XX"),
            station: String::from_str("STA"),
            location: String::from_str("00"),
            band: String::from_str("B"),
            source: String::from_str("H"),
            subsource: String::from_str("Z"),
        };
        assert(sid.network@ =~= seq!['X', 'X']);
        assert(sid.station@ =~= seq!['S', 'T', 'A']);
        assert(sid.location@ =~= seq!['0', '0']);
        assert(sid.band@ =~= seq!['B']);
        assert(sid.source@ =~= seq!['H']);
        assert(sid.subsource@ =~= seq!['Z']);
        sid
    }
}

/// The bytes of an identifier are 5 for the prefix, 5 for the separators, and
/// those of its parts.
pub proof fn lemma_byte_length(sid: FdsnSourceIdentifier)
    ensures
        encode_utf8(sid.text()).len() == sid.byte_length(),
{
    vstd::utf8::is_ascii_chars_encode_utf8(prefix());
    vstd::utf8::is_ascii_chars_encode_utf8(separator());
    let t0 = prefix();
    let t1 = t0 + sid.network@;
    let t2 = t1 + separator();
    let t3 = t2 + sid.station@;
    let t4 = t3 + separator();
    let t5 = t4 + sid.location@;
    let t6 = t5 + separator();
    let t7 = t6 + sid.band@;
    let t8 = t7 + separator();
    let t9 = t8 + sid.source@;
    let t10 = t9 + separator();
    lemma_encode_utf8_concat(t0, sid.network@);
    lemma_encode_utf8_concat(t1, separator());
    lemma_encode_utf8_concat(t2, sid.station@);
    lemma_encode_utf8_concat(t3, separator());
    lemma_encode_utf8_concat(t4, sid.location@);
    lemma_encode_utf8_concat(t5, separator());
    lemma_encode_utf8_concat(t6, sid.band@);
    lemma_encode_utf8_concat(t7, separator());
    lemma_encode_utf8_concat(t8, sid.source@);
    lemma_encode_utf8_concat(t9, separator());
    lemma_encode_utf8_concat(t10, sid.subsource@);
}

// ---------------------------------------------------------------------------
// Source identifiers of any kind
// ---------------------------------------------------------------------------
/// A source identifier: an FDSN source identifier in its parts, or any other
/// text as it is.
#[derive(Debug, Clone, PartialEq, Eq)]
pub enum SourceIdentifier {
    Raw(String),
    Fdsn(FdsnSourceIdentifier),
}

impl SourceIdentifier {
    /// The identifier as text.
    pub open spec fn text(&self) -> Seq<char> {
        match self {
            SourceIdentifier::Raw(s) => s@,
            SourceIdentifier::Fdsn(f) => f.text(),
        }
    }

    /// The number of bytes of the identifier as text.
    pub open spec fn byte_length(&self) -> nat {
        encode_utf8(self.text()).len()
    }

    /// Whether the identifier is what `text` is read as: its parts, if it is
    /// an FDSN source identifier, else the text itself.
    pub open spec fn is_reading_of(&self, text: Seq<char>) -> bool {
        match self {
            SourceIdentifier::Raw(s) => s@ == text && !matches_grammar(text),
            SourceIdentifier::Fdsn(f) => f.is_well_formed() && f.text() == text,
        }
    }

    /// Whether the identifier is short enough for the length field of a
    /// header.
    pub fn fits(&self) -> (fits: bool)
        ensures
            fits == (self.byte_length() <= 255),
    {
        match self {
            SourceIdentifier::Raw(s) => s.as_str().as_bytes().len() <= 255,
            SourceIdentifier::Fdsn(f) => {
                proof {
                    lemma_byte_length(*f);
                }
                f.fits()
            },
        }
    }

    /// The number of bytes of the identifier as text.
    pub fn calc_len(&self) -> (len: u8)
        requires
            self.byte_length() <= 255,
        ensures
            len == self.byte_length(),
    {
        match self {
            SourceIdentifier::Raw(s) => s.as_str().as_bytes().len() as u8,
            SourceIdentifier::Fdsn(f) => {
                proof {
                    lemma_byte_length(*f);
                }
                f.calc_len()
            },
        }
    }

    /// The bytes of the identifier as text.
    pub fn as_bytes(&self) -> (bytes: Vec<u8>)
        ensures
            bytes@ == encode_utf8(self.text()),
    {
        match self {
            SourceIdentifier::Raw(s) => s.as_str().as_bytes_vec(),
            SourceIdentifier::Fdsn(f) => f.as_bytes(),
        }
    }

    /// The identifier as text.
    pub fn to_string(&self) -> (text: String)
        ensures
            text@ == self.text(),
    {
        match self {
            SourceIdentifier::Raw(s) => s.clone(),
            SourceIdentifier::Fdsn(f) => f.to_string(),
        }
    }

    /// Reads `s` as an identifier: as an FDSN source identifier if it is one,
    /// else as the text that it is.
    pub fn from(s: &str) -> (sid: SourceIdentifier)
        ensures
            sid.is_reading_of(s@),
            sid.text() == s@,
    {
        match FdsnSourceIdentifier::parse(s) {
            Ok(fdsn) => SourceIdentifier::Fdsn(fdsn),
            Err(_) => SourceIdentifier::Raw(String::from_str(s)),
        }
    }

    /// Reads the text that `v` encodes as an identifier.  Fails if `v` is not
    /// UTF-8.
    pub fn try_from(v: Vec<u8>) -> (sid: Result<SourceIdentifier, MSeedError>)
        ensures
            match sid {
                Ok(id) => valid_utf8(v@) && encode_utf8(id.text()) == v@ && id.is_reading_of(
                    id.text(),
                ),
                Err(MSeedError::FromUtf8Error) => !valid_utf8(v@),
                Err(_) => false,
            },
    {
        match text_of_utf8(v) {
            None => Err(MSeedError::FromUtf8Error),
            Some(s) => Ok(SourceIdentifier::from(s.as_str())),
        }
    }
}

/// An identifier that was read from a text has that text: reading a text
/// and writing what was read gives back the text.  What was read is an FDSN
/// source identifier exactly if the text is one.
pub proof fn lemma_reading_keeps_text(sid: SourceIdentifier, text: Seq<char>)
    requires
        sid.is_reading_of(text),
    ensures
        sid.text() == text,
        sid is Fdsn <==> matches_grammar(text),
{
}

/// A text has the parts of one identifier only.
pub proof fn lemma_parts_unique(first: FdsnSourceIdentifier, second: FdsnSourceIdentifier)
    requires
        first.is_well_formed(),
        second.is_well_formed(),
        first.text() == second.text(),
    ensures
        first.network@ == second.network@,
        first.station@ == second.station@,
        first.location@ == second.location@,
        first.band@ == second.band@,
        first.source@ == second.source@,
        first.subsource@ == second.subsource@,
{
    let text = first.text();
    lemma_parts_in_text(
        first.network@,
        first.station@,
        first.location@,
        first.band@,
        first.source@,
        first.subsource@,
    );
    lemma_parts_in_text(
        second.network@,
        second.station@,
        second.location@,
        second.band@,
        second.source@,
        second.subsource@,
    );
    let a1: int = 5int + first.network@.len();
    let b1: int = 5int + second.network@.len();
    lemma_part_ends_once(text, 5, a1, b1);
    let a2: int = a1 + 1 + first.station@.len();
    let b2: int = b1 + 1 + second.station@.len();
    lemma_part_ends_once(text, a1 + 1, a2, b2);
    let a3: int = a2 + 1 + first.location@.len();
    let b3: int = b2 + 1 + second.location@.len();
    lemma_part_ends_once(text, a2 + 1, a3, b3);
    let a4: int = a3 + 1 + first.band@.len();
    let b4: int = b3 + 1 + second.band@.len();
    lemma_part_ends_once(text, a3 + 1, a4, b4);
    let a5: int = a4 + 1 + first.source@.len();
    let b5: int = b4 + 1 + second.source@.len();
    lemma_part_ends_once(text, a4 + 1, a5, b5);
}

} // verus!
