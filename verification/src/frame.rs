//! Line framing and the frame decoder.
//!
//! The serial collaborator delivers bytes; [`extract_line`] cuts them at
//! the first line feed and decodes them as UTF-8.  [`decode`] then turns
//! one line into a structured frame: control and terminator characters
//! are stripped, the payload is split at the unit separator, and the
//! channel, address, signal-strength and network-name fields are read
//! out under the documented fallback policy.

use vstd::prelude::*;
use vstd::utf8::{encode_utf8, valid_utf8};
use crate::mac::{is_mac, is_mac_address};
use crate::parse::{parse_u32, spec_parse_u32};
use crate::text::{push_char, str_chars};

verus! {

/// Why a line was dropped without touching the store.
#[derive(Clone, Copy, PartialEq, Eq, Structural, Debug)]
pub enum FrameError {
    /// The line is not a decodable frame: fewer than three fields after
    /// splitting, or bytes that are not UTF-8.
    Malformed,
}

/// One decoded beacon observation.
///
/// `address` is the canonical hardware address, or the empty-string
/// sentinel when the address field failed validation (such frames all
/// collapse into one shared sentinel record).  `rssi_raw` is kept as
/// text for the store to parse.
#[derive(Debug, PartialEq, Eq)]
pub struct ParsedFrame {
    /// Radio channel; 0 when the channel field did not parse.
    pub channel: u32,
    /// Validated hardware address, or the empty sentinel.
    pub address: String,
    /// Signal-strength field, as received.
    pub rssi_raw: String,
    /// Broadcast network name; may be empty.
    pub ssid: String,
}

/// Mathematical image of a [`ParsedFrame`].
#[verifier::ext_equal]
pub struct FrameModel {
    /// Radio channel.
    pub channel: u32,
    /// Validated hardware address, or the empty sentinel.
    pub address: Seq<char>,
    /// Signal-strength field, as received.
    pub rssi_raw: Seq<char>,
    /// Broadcast network name.
    pub ssid: Seq<char>,
}

impl View for ParsedFrame {
    type V = FrameModel;

    open spec fn view(&self) -> FrameModel {
        FrameModel {
            channel: self.channel,
            address: self.address@,
            rssi_raw: self.rssi_raw@,
            ssid: self.ssid@,
        }
    }
}

/// Position of the first line feed in `s`, if any.
pub open spec fn spec_find_newline(s: Seq<u8>) -> Option<int>
    decreases s.len(),
{
    if s.len() == 0 {
        None
    } else if s[0] == 10 {
        Some(0)
    } else {
        match spec_find_newline(s.skip(1)) {
            Some(i) => Some(i + 1),
            None => None,
        }
    }
}

proof fn lemma_find_newline_none(s: Seq<u8>)
    requires
        forall|j: int| 0 <= j < s.len() ==> s[j] != 10,
    ensures
        spec_find_newline(s) is None,
    decreases s.len(),
{
    if s.len() > 0 {
        assert(forall|j: int| 0 <= j < s.skip(1).len() ==> s.skip(1)[j] == s[j + 1]);
        lemma_find_newline_none(s.skip(1));
    }
}

proof fn lemma_find_newline_at(s: Seq<u8>, k: int)
    requires
        0 <= k < s.len(),
        s[k] == 10,
        forall|j: int| 0 <= j < k ==> s[j] != 10,
    ensures
        spec_find_newline(s) == Some(k),
    decreases s.len(),
{
    if k > 0 {
        assert(forall|j: int| 0 <= j < s.skip(1).len() ==> s.skip(1)[j] == s[j + 1]);
        lemma_find_newline_at(s.skip(1), k - 1);
    }
}

/// Relies on `String::from_utf8`: succeeds exactly on valid UTF-8 and
/// returns the string those bytes encode.
#[verifier::external_body]
fn bytes_to_string(bytes: Vec<u8>) -> (r: Option<String>)
    ensures
        match r {
            Some(s) => valid_utf8(bytes@) && encode_utf8(s@) == bytes@,
            None => !valid_utf8(bytes@),
        },
{
    match String::from_utf8(bytes) {
        Ok(s) => Some(s),
        Err(_) => None,
    }
}

/// Takes the first line (up to and including its line feed) off the
/// front of `buf` and decodes it as UTF-8.  Without a line feed, `buf`
/// is left alone and no line is produced; a line that is not UTF-8 is
/// reported as malformed and still consumed.
pub fn extract_line(buf: &mut Vec<u8>) -> (r: Result<Option<String>, FrameError>)
    ensures
        match spec_find_newline(old(buf)@) {
            None => final(buf)@ == old(buf)@ && r == Ok::<Option<String>, FrameError>(None),
            Some(n) => final(buf)@ == old(buf)@.skip(n + 1) && match r {
                Ok(opt) => opt is Some && valid_utf8(old(buf)@.take(n + 1)) && encode_utf8(
                    opt->0@,
                ) == old(buf)@.take(n + 1),
                Err(e) => !valid_utf8(old(buf)@.take(n + 1)) && e == FrameError::Malformed,
            },
        },
{
    let n = buf.len();
    let mut k: usize = 0;
    let mut found: bool = false;
    while k < n && !found
        invariant
            k <= n,
            n == buf@.len(),
            found ==> k < n && buf@[k as int] == 10,
            forall|j: int| 0 <= j < k ==> buf@[j] != 10,
        decreases n - k + (if found { 0int } else { 1int }),
    {
        if buf[k] == 10 {
            found = true;
        } else {
            k = k + 1;
        }
    }
    if !found {
        proof {
            lemma_find_newline_none(buf@);
        }
        return Ok(None);
    }
    proof {
        lemma_find_newline_at(buf@, k as int);
    }
    let mut line_bytes: Vec<u8> = Vec::new();
    let mut j: usize = 0;
    while j < k + 1
        invariant
            j <= k + 1,
            k < n,
            n == buf@.len(),
            line_bytes@ == buf@.take(j as int),
        decreases k + 1 - j,
    {
        line_bytes.push(buf[j]);
        proof {
            assert(buf@.take(j + 1 as int) =~= buf@.take(j as int).push(buf@[j as int]));
        }
        j = j + 1;
    }
    let tail = buf.split_off(k + 1);
    *buf = tail;
    match bytes_to_string(line_bytes) {
        Some(s) => Ok(Some(s)),
        None => Err(FrameError::Malformed),
    }
}

/// Characters removed from a frame before splitting: the start-of-text
/// and end-of-text markers and the line terminator pair.
pub open spec fn is_stripped_char(c: char) -> bool {
    c == '\u{2}' || c == '\u{3}' || c == '\r' || c == '\n'
}

/// `s` with every control and terminator character removed.
pub open spec fn spec_clean(s: Seq<char>) -> Seq<char>
    decreases s.len(),
{
    if s.len() == 0 {
        Seq::empty()
    } else if is_stripped_char(s.last()) {
        spec_clean(s.drop_last())
    } else {
        spec_clean(s.drop_last()).push(s.last())
    }
}

/// `s` split at every unit separator.  Splitting always yields at least
/// one (possibly empty) field.
pub open spec fn spec_split(s: Seq<char>) -> Seq<Seq<char>>
    decreases s.len(),
{
    if s.len() == 0 {
        seq![Seq::<char>::empty()]
    } else if s.last() == '\u{1F}' {
        spec_split(s.drop_last()).push(Seq::empty())
    } else {
        let r = spec_split(s.drop_last());
        r.update(r.len() - 1, r.last().push(s.last()))
    }
}

/// Splitting yields at least one field.
pub proof fn lemma_split_nonempty(s: Seq<char>)
    ensures
        spec_split(s).len() >= 1,
    decreases s.len(),
{
    if s.len() > 0 {
        lemma_split_nonempty(s.drop_last());
    }
}

/// The fields of one raw line: strip, then split.
pub open spec fn spec_fields(line: Seq<char>) -> Seq<Seq<char>> {
    spec_split(spec_clean(line))
}

/// What the decoder returns for `line`, if anything: the frame whose
/// channel is the first field (0 when unparsable), whose address is the
/// validated second field (the empty sentinel when invalid), whose raw
/// signal strength is the third field, and whose network name is the
/// second-to-last field unless that one textually equals the
/// signal-strength field, in which case it is the last field.
pub open spec fn spec_decode(line: Seq<char>) -> Option<FrameModel> {
    let fields = spec_fields(line);
    if fields.len() < 3 {
        None
    } else {
        Some(
            FrameModel {
                channel: match spec_parse_u32(fields[0]) {
                    Some(v) => v,
                    None => 0,
                },
                address: if is_mac_address(fields[1]) {
                    fields[1]
                } else {
                    Seq::empty()
                },
                rssi_raw: fields[2],
                ssid: if fields[fields.len() - 2] != fields[2] {
                    fields[fields.len() - 2]
                } else {
                    fields[fields.len() - 1]
                },
            },
        )
    }
}

/// Splits a cleaned payload into its fields.
fn split_fields(cleaned: &Vec<char>) -> (fields: Vec<String>)
    ensures
        fields.deep_view() == spec_split(cleaned@),
        fields@.len() >= 1,
{
    let n = cleaned.len();
    let mut fields: Vec<String> = Vec::new();
    let mut cur: String = String::new();
    let mut i: usize = 0;
    while i < n
        invariant
            i <= n,
            n == cleaned@.len(),
            spec_split(cleaned@.take(i as int)) =~~= fields.deep_view().push(cur@),
        decreases n - i,
    {
        let c = cleaned[i];
        proof {
            assert(cleaned@.take(i + 1 as int).drop_last() =~= cleaned@.take(i as int));
            assert(cleaned@.take(i + 1 as int).last() == cleaned@[i as int]);
        }
        if c == '\u{1F}' {
            let finished = cur;
            cur = String::new();
            fields.push(finished);
            proof {
                assert(spec_split(cleaned@.take(i + 1 as int)) =~~= fields.deep_view().push(
                    cur@,
                ));
            }
        } else {
            push_char(&mut cur, c);
            proof {
                assert(spec_split(cleaned@.take(i + 1 as int)) =~~= fields.deep_view().push(
                    cur@,
                ));
            }
        }
        i = i + 1;
    }
    proof {
        assert(cleaned@.take(n as int) =~= cleaned@);
    }
    fields.push(cur);
    proof {
        assert(fields.deep_view() =~~= spec_split(cleaned@));
    }
    fields
}

/// Decodes one raw line into a frame.
///
/// The decoder never panics: a line whose payload has fewer than three
/// fields is rejected as [`FrameError::Malformed`], and exactly those
/// lines are rejected.  A channel that does not parse becomes 0 and an
/// address that fails validation becomes the empty sentinel; neither
/// condition drops the frame.
pub fn decode(line: &str) -> (r: Result<ParsedFrame, FrameError>)
    ensures
        match r {
            Ok(f) => spec_decode(line@) == Some(f@),
            Err(e) => spec_decode(line@) is None && e == FrameError::Malformed,
        },
{
    let chars = str_chars(line);
    let n = chars.len();
    let mut cleaned: Vec<char> = Vec::new();
    let mut i: usize = 0;
    while i < n
        invariant
            i <= n,
            n == chars@.len(),
            chars@ == line@,
            cleaned@ == spec_clean(line@.take(i as int)),
        decreases n - i,
    {
        let c = chars[i];
        proof {
            assert(line@.take(i + 1 as int).drop_last() =~= line@.take(i as int));
            assert(line@.take(i + 1 as int).last() == line@[i as int]);
        }
        if !(c == '\u{2}' || c == '\u{3}' || c == '\r' || c == '\n') {
            cleaned.push(c);
        }
        i = i + 1;
    }
    proof {
        assert(line@.take(n as int) =~= line@);
    }
    let fields = split_fields(&cleaned);
    let count = fields.len();
    if count < 3 {
        return Err(FrameError::Malformed);
    }
    let channel: u32 = match parse_u32(fields[0].as_str()) {
        Some(v) => v,
        None => 0,
    };
    let address: String = if is_mac(fields[1].as_str()) {
        fields[1].clone()
    } else {
        String::new()
    };
    let rssi_raw: String = fields[2].clone();
    let ssid: String = if !fields[count - 2].eq(&fields[2]) {
        fields[count - 2].clone()
    } else {
        fields[count - 1].clone()
    };
    let f = ParsedFrame { channel, address, rssi_raw, ssid };
    proof {
        assert(spec_decode(line@) == Some(f@));
    }
    Ok(f)
}

} // verus!
