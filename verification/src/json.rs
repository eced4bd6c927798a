//! Serialization of query snapshots for the foreign caller.
//!
//! Snapshots cross the foreign-function boundary as NUL-terminated UTF-8
//! JSON.  The record shape is fixed — `mac`, `ts`, `rssi`, `channels`,
//! `ssids`, in that order — so the serializer is written out here and
//! verified against spec functions that give the exact output.  Embedded
//! NUL characters are stripped from every string field before
//! serialization, which keeps the terminator the only NUL in the result.

use vstd::prelude::*;
use crate::store::{Data, DataModel};
use crate::text::push_char;
use crate::text::str_chars;
use vstd::string::StringExecFns;

verus! {

/// The character for one decimal digit.
pub open spec fn spec_digit_char(d: int) -> char {
    if d == 0 {
        '0'
    } else if d == 1 {
        '1'
    } else if d == 2 {
        '2'
    } else if d == 3 {
        '3'
    } else if d == 4 {
        '4'
    } else if d == 5 {
        '5'
    } else if d == 6 {
        '6'
    } else if d == 7 {
        '7'
    } else if d == 8 {
        '8'
    } else {
        '9'
    }
}

/// The character for one lowercase hexadecimal digit.
pub open spec fn spec_hex_char(d: int) -> char {
    if d < 10 {
        spec_digit_char(d)
    } else if d == 10 {
        'a'
    } else if d == 11 {
        'b'
    } else if d == 12 {
        'c'
    } else if d == 13 {
        'd'
    } else if d == 14 {
        'e'
    } else {
        'f'
    }
}

/// Decimal notation of a natural number, most significant digit first.
pub open spec fn spec_dec_nat(n: nat) -> Seq<char>
    decreases n,
{
    if n < 10 {
        seq![spec_digit_char(n as int)]
    } else {
        spec_dec_nat(n / 10) + seq![spec_digit_char((n % 10) as int)]
    }
}

/// Decimal notation of an integer, with a leading minus sign when
/// negative.
pub open spec fn spec_dec_int(n: int) -> Seq<char> {
    if n < 0 {
        seq!['-'] + spec_dec_nat((-n) as nat)
    } else {
        spec_dec_nat(n as nat)
    }
}

/// How one character appears inside a JSON string literal: quote and
/// backslash get a backslash escape, the named control characters their
/// short escapes, any other control character a `\u00..` escape, and
/// everything else stands as itself.
pub open spec fn spec_escape_char(c: char) -> Seq<char> {
    if c == '"' {
        seq!['\\', '"']
    } else if c == '\\' {
        seq!['\\', '\\']
    } else if c == '\u{8}' {
        seq!['\\', 'b']
    } else if c == '\u{9}' {
        seq!['\\', 't']
    } else if c == '\u{A}' {
        seq!['\\', 'n']
    } else if c == '\u{C}' {
        seq!['\\', 'f']
    } else if c == '\u{D}' {
        seq!['\\', 'r']
    } else if (c as u32) < 32 {
        seq!['\\', 'u', '0', '0', spec_hex_char(c as u32 as int / 16), spec_hex_char(c as u32 as int % 16)]
    } else {
        seq![c]
    }
}

/// `s` escaped character by character.
pub open spec fn spec_escape(s: Seq<char>) -> Seq<char>
    decreases s.len(),
{
    if s.len() == 0 {
        Seq::empty()
    } else {
        spec_escape(s.drop_last()) + spec_escape_char(s.last())
    }
}

/// `s` with every NUL character removed.
pub open spec fn spec_strip_nul(s: Seq<char>) -> Seq<char>
    decreases s.len(),
{
    if s.len() == 0 {
        Seq::empty()
    } else if s.last() == '\u{0}' {
        spec_strip_nul(s.drop_last())
    } else {
        spec_strip_nul(s.drop_last()).push(s.last())
    }
}

/// The JSON string literal for `s`: NUL characters stripped, the rest
/// escaped, the whole quoted.
pub open spec fn spec_json_string(s: Seq<char>) -> Seq<char> {
    seq!['"'] + spec_escape(spec_strip_nul(s)) + seq!['"']
}

/// `parts` joined by commas.
pub open spec fn spec_join_comma(parts: Seq<Seq<char>>) -> Seq<char>
    decreases parts.len(),
{
    if parts.len() == 0 {
        Seq::empty()
    } else if parts.len() == 1 {
        parts[0]
    } else {
        spec_join_comma(parts.drop_last()) + seq![','] + parts.last()
    }
}

/// The JSON object serializing one snapshot, fields in declaration
/// order.
pub open spec fn spec_json_record(d: DataModel) -> Seq<char> {
    "{\"mac\":"@ + spec_json_string(d.mac) + ",\"ts\":"@ + spec_dec_int(d.ts as int)
        + ",\"rssi\":"@ + spec_dec_int(d.rssi as int) + ",\"channels\":["@ + spec_join_comma(
        d.channels.map_values(|c: u32| spec_dec_nat(c as nat)),
    ) + "],\"ssids\":["@ + spec_join_comma(
        d.ssids.map_values(|s: Seq<char>| spec_json_string(s)),
    ) + "]}"@
}

/// The JSON array serializing a sequence of snapshots.
pub open spec fn spec_json_array(ds: Seq<DataModel>) -> Seq<char> {
    seq!['['] + spec_join_comma(ds.map_values(|d: DataModel| spec_json_record(d))) + seq![']']
}

/// No NUL character occurs in `s`.
pub open spec fn no_nul(s: Seq<char>) -> bool {
    forall|i: int| 0 <= i < s.len() ==> s[i] != '\u{0}'
}

broadcast proof fn lemma_no_nul_concat(a: Seq<char>, b: Seq<char>)
    ensures
        #![trigger no_nul(a + b)]
        no_nul(a) && no_nul(b) ==> no_nul(a + b),
{
    if no_nul(a) && no_nul(b) {
        assert forall|i: int| 0 <= i < (a + b).len() implies (a + b)[i] != '\u{0}' by {
            if i < a.len() {
                assert((a + b)[i] == a[i]);
            } else {
                assert((a + b)[i] == b[i - a.len()]);
            }
        };
    }
}

proof fn lemma_strip_nul_no_nul(s: Seq<char>)
    ensures
        no_nul(spec_strip_nul(s)),
    decreases s.len(),
{
    if s.len() > 0 {
        lemma_strip_nul_no_nul(s.drop_last());
    }
}

proof fn lemma_escape_char_no_nul(c: char)
    ensures
        no_nul(spec_escape_char(c)),
{
    if !(c == '"' || c == '\\' || c == '\u{8}' || c == '\u{9}' || c == '\u{A}' || c == '\u{C}'
        || c == '\u{D}') && (c as u32) >= 32 {
        assert(c != '\u{0}');
    }
}

proof fn lemma_escape_no_nul(s: Seq<char>)
    ensures
        no_nul(spec_escape(s)),
    decreases s.len(),
{
    if s.len() > 0 {
        lemma_escape_no_nul(s.drop_last());
        lemma_escape_char_no_nul(s.last());
        lemma_no_nul_concat(spec_escape(s.drop_last()), spec_escape_char(s.last()));
    }
}

proof fn lemma_json_string_no_nul(s: Seq<char>)
    ensures
        no_nul(spec_json_string(s)),
{
    lemma_strip_nul_no_nul(s);
    lemma_escape_no_nul(spec_strip_nul(s));
    lemma_no_nul_concat(seq!['"'], spec_escape(spec_strip_nul(s)));
    lemma_no_nul_concat(seq!['"'] + spec_escape(spec_strip_nul(s)), seq!['"']);
}

proof fn lemma_dec_nat_no_nul(n: nat)
    ensures
        no_nul(spec_dec_nat(n)),
    decreases n,
{
    if n >= 10 {
        lemma_dec_nat_no_nul(n / 10);
        lemma_no_nul_concat(spec_dec_nat(n / 10), seq![spec_digit_char((n % 10) as int)]);
    }
}

proof fn lemma_dec_int_no_nul(n: int)
    ensures
        no_nul(spec_dec_int(n)),
{
    if n < 0 {
        lemma_dec_nat_no_nul((-n) as nat);
        lemma_no_nul_concat(seq!['-'], spec_dec_nat((-n) as nat));
    } else {
        lemma_dec_nat_no_nul(n as nat);
    }
}

proof fn lemma_join_no_nul(parts: Seq<Seq<char>>)
    requires
        forall|i: int| 0 <= i < parts.len() ==> no_nul(#[trigger] parts[i]),
    ensures
        no_nul(spec_join_comma(parts)),
    decreases parts.len(),
{
    if parts.len() > 1 {
        assert(forall|i: int|
            0 <= i < parts.drop_last().len() ==> parts.drop_last()[i] == parts[i]);
        lemma_join_no_nul(parts.drop_last());
        lemma_no_nul_concat(spec_join_comma(parts.drop_last()), seq![',']);
        lemma_no_nul_concat(spec_join_comma(parts.drop_last()) + seq![','], parts.last());
    }
}

/// The serialized record never holds a NUL character, so the caller's
/// terminator stays the only one.
pub proof fn lemma_json_record_no_nul(d: DataModel)
    ensures
        no_nul(spec_json_record(d)),
{
    broadcast use lemma_no_nul_concat;

    reveal_strlit("{\"mac\":");
    reveal_strlit(",\"ts\":");
    reveal_strlit(",\"rssi\":");
    reveal_strlit(",\"channels\":[");
    reveal_strlit("],\"ssids\":[");
    reveal_strlit("]}");
    lemma_json_string_no_nul(d.mac);
    lemma_dec_int_no_nul(d.ts as int);
    lemma_dec_int_no_nul(d.rssi as int);
    let chans = d.channels.map_values(|c: u32| spec_dec_nat(c as nat));
    assert forall|i: int| 0 <= i < chans.len() implies no_nul(#[trigger] chans[i]) by {
        lemma_dec_nat_no_nul(d.channels[i] as nat);
    };
    lemma_join_no_nul(chans);
    let ssids = d.ssids.map_values(|s: Seq<char>| spec_json_string(s));
    assert forall|i: int| 0 <= i < ssids.len() implies no_nul(#[trigger] ssids[i]) by {
        lemma_json_string_no_nul(d.ssids[i]);
    };
    lemma_join_no_nul(ssids);
}

fn digit_char(d: u64) -> (c: char)
    requires
        d < 10,
    ensures
        c == spec_digit_char(d as int),
{
    if d == 0 {
        '0'
    } else if d == 1 {
        '1'
    } else if d == 2 {
        '2'
    } else if d == 3 {
        '3'
    } else if d == 4 {
        '4'
    } else if d == 5 {
        '5'
    } else if d == 6 {
        '6'
    } else if d == 7 {
        '7'
    } else if d == 8 {
        '8'
    } else {
        '9'
    }
}

fn hex_char(d: u32) -> (c: char)
    requires
        d < 16,
    ensures
        c == spec_hex_char(d as int),
{
    if d < 10 {
        digit_char(d as u64)
    } else if d == 10 {
        'a'
    } else if d == 11 {
        'b'
    } else if d == 12 {
        'c'
    } else if d == 13 {
        'd'
    } else if d == 14 {
        'e'
    } else {
        'f'
    }
}

/// Writes `n` in decimal.
pub fn fmt_u64(n: u64) -> (r: String)
    ensures
        r@ == spec_dec_nat(n as nat),
    decreases n,
{
    if n < 10 {
        let mut s = String::new();
        push_char(&mut s, digit_char(n));
        proof {
            assert(s@ =~= spec_dec_nat(n as nat));
        }
        s
    } else {
        let mut s = fmt_u64(n / 10);
        push_char(&mut s, digit_char(n % 10));
        proof {
            assert(s@ =~= spec_dec_nat(n as nat / 10) + seq![
                spec_digit_char((n as nat % 10) as int),
            ]);
        }
        s
    }
}

/// Writes `n` in decimal, with a minus sign when negative.
pub fn fmt_i64(n: i64) -> (r: String)
    ensures
        r@ == spec_dec_int(n as int),
{
    if n >= 0 {
        fmt_u64(n as u64)
    } else {
        let mag: u64 = if n == i64::MIN {
            9223372036854775808u64
        } else {
            (-n) as u64
        };
        assert(mag as int == -(n as int));
        let mut s = String::new();
        push_char(&mut s, '-');
        let digits = fmt_u64(mag);
        s.append(digits.as_str());
        proof {
            assert(Seq::<char>::empty().push('-') =~= seq!['-']);
        }
        s
    }
}

/// Writes `n` in decimal.
pub fn fmt_u32(n: u32) -> (r: String)
    ensures
        r@ == spec_dec_nat(n as nat),
{
    fmt_u64(n as u64)
}

/// Writes `n` in decimal, with a minus sign when negative.
pub fn fmt_i32(n: i32) -> (r: String)
    ensures
        r@ == spec_dec_int(n as int),
{
    fmt_i64(n as i64)
}

fn emit_escaped_char(out: &mut String, c: char)
    ensures
        final(out)@ == old(out)@ + spec_escape_char(c),
{
    if c == '"' {
        push_char(out, '\\');
        push_char(out, '"');
        proof {
            assert(out@ =~= old(out)@ + spec_escape_char(c));
        }
    } else if c == '\\' {
        push_char(out, '\\');
        push_char(out, '\\');
        proof {
            assert(out@ =~= old(out)@ + spec_escape_char(c));
        }
    } else if c == '\u{8}' {
        push_char(out, '\\');
        push_char(out, 'b');
        proof {
            assert(out@ =~= old(out)@ + spec_escape_char(c));
        }
    } else if c == '\u{9}' {
        push_char(out, '\\');
        push_char(out, 't');
        proof {
            assert(out@ =~= old(out)@ + spec_escape_char(c));
        }
    } else if c == '\u{A}' {
        push_char(out, '\\');
        push_char(out, 'n');
        proof {
            assert(out@ =~= old(out)@ + spec_escape_char(c));
        }
    } else if c == '\u{C}' {
        push_char(out, '\\');
        push_char(out, 'f');
        proof {
            assert(out@ =~= old(out)@ + spec_escape_char(c));
        }
    } else if c == '\u{D}' {
        push_char(out, '\\');
        push_char(out, 'r');
        proof {
            assert(out@ =~= old(out)@ + spec_escape_char(c));
        }
    } else {
        let u = c as u32;
        if u < 32 {
            push_char(out, '\\');
            push_char(out, 'u');
            push_char(out, '0');
            push_char(out, '0');
            push_char(out, hex_char(u / 16));
            push_char(out, hex_char(u % 16));
            proof {
                assert(out@ =~= old(out)@ + spec_escape_char(c));
            }
        } else {
            push_char(out, c);
            proof {
                assert(out@ =~= old(out)@ + spec_escape_char(c));
            }
        }
    }
}

/// Writes `s` as a JSON string literal: NUL characters stripped, the
/// rest escaped, the whole quoted.
pub fn json_string_of(s: &str) -> (r: String)
    ensures
        r@ == spec_json_string(s@),
{
    let chars = str_chars(s);
    let n = chars.len();
    let mut stripped: Vec<char> = Vec::new();
    let mut i: usize = 0;
    while i < n
        invariant
            i <= n,
            n == chars@.len(),
            chars@ == s@,
            stripped@ == spec_strip_nul(s@.take(i as int)),
        decreases n - i,
    {
        let c = chars[i];
        proof {
            assert(s@.take(i + 1 as int).drop_last() =~= s@.take(i as int));
            assert(s@.take(i + 1 as int).last() == s@[i as int]);
        }
        if c != '\u{0}' {
            stripped.push(c);
        }
        i = i + 1;
    }
    proof {
        assert(s@.take(n as int) =~= s@);
    }
    let mut out = String::new();
    push_char(&mut out, '"');
    proof {
        assert(out@ =~= seq!['"'] + spec_escape(stripped@.take(0int)));
    }
    let m = stripped.len();
    let mut j: usize = 0;
    while j < m
        invariant
            j <= m,
            m == stripped@.len(),
            stripped@ == spec_strip_nul(s@),
            out@ == seq!['"'] + spec_escape(stripped@.take(j as int)),
        decreases m - j,
    {
        emit_escaped_char(&mut out, stripped[j]);
        proof {
            assert(stripped@.take(j + 1 as int).drop_last() =~= stripped@.take(j as int));
            assert(stripped@.take(j + 1 as int).last() == stripped@[j as int]);
            assert(out@ =~= seq!['"'] + spec_escape(stripped@.take(j + 1 as int)));
        }
        j = j + 1;
    }
    push_char(&mut out, '"');
    proof {
        assert(stripped@.take(m as int) =~= stripped@);
        assert(out@ =~= spec_json_string(s@));
    }
    out
}

/// What appending one more part does to a comma-joined list.
proof fn lemma_join_push(parts: Seq<Seq<char>>, p: Seq<char>)
    ensures
        parts.len() == 0 ==> spec_join_comma(parts.push(p)) == p,
        parts.len() > 0 ==> spec_join_comma(parts.push(p)) == spec_join_comma(parts) + seq![',']
            + p,
{
    let t = parts.push(p);
    assert(t.drop_last() =~= parts);
    assert(t.last() == p);
    if parts.len() == 0 {
        assert(t.len() == 1);
        assert(t[0] == p);
    }
}

/// Writes one snapshot as a JSON object.
pub fn json_record(d: &Data) -> (r: String)
    ensures
        r@ == spec_json_record(d@),
{
    let mut out = String::new();
    out.append("{\"mac\":");
    let mac = json_string_of(d.mac.as_str());
    out.append(mac.as_str());
    out.append(",\"ts\":");
    let ts = fmt_i64(d.ts);
    out.append(ts.as_str());
    out.append(",\"rssi\":");
    let rssi = fmt_i32(d.rssi);
    out.append(rssi.as_str());
    out.append(",\"channels\":[");
    let ghost chans = d@.channels.map_values(|c: u32| spec_dec_nat(c as nat));
    let ghost base = out@;
    let n = d.channels.len();
    let mut i: usize = 0;
    while i < n
        invariant
            i <= n,
            n == d.channels@.len(),
            chans == d@.channels.map_values(|c: u32| spec_dec_nat(c as nat)),
            d@.channels == d.channels@,
            out@ == base + spec_join_comma(chans.take(i as int)),
        decreases n - i,
    {
        if i > 0 {
            out.append(",");
            proof {
                reveal_strlit(",");
                assert(","@ =~= seq![',']);
            }
        }
        let digits = fmt_u32(d.channels[i]);
        out.append(digits.as_str());
        proof {
            assert(chans.take(i + 1 as int).drop_last() =~= chans.take(i as int));
            assert(chans.take(i + 1 as int) =~= chans.take(i as int).push(
                spec_dec_nat(d.channels@[i as int] as nat),
            ));
            lemma_join_push(chans.take(i as int), spec_dec_nat(d.channels@[i as int] as nat));
            assert(out@ =~= base + spec_join_comma(chans.take(i + 1 as int)));
        }
        i = i + 1;
    }
    proof {
        assert(chans.take(n as int) =~= chans);
    }
    out.append("],\"ssids\":[");
    let ghost ssids = d@.ssids.map_values(|s: Seq<char>| spec_json_string(s));
    let ghost base2 = out@;
    let m = d.ssids.len();
    let mut j: usize = 0;
    while j < m
        invariant
            j <= m,
            m == d.ssids@.len(),
            ssids == d@.ssids.map_values(|s: Seq<char>| spec_json_string(s)),
            d@.ssids == d.ssids.deep_view(),
            out@ == base2 + spec_join_comma(ssids.take(j as int)),
        decreases m - j,
    {
        if j > 0 {
            out.append(",");
            proof {
                reveal_strlit(",");
                assert(","@ =~= seq![',']);
            }
        }
        let lit = json_string_of(d.ssids[j].as_str());
        out.append(lit.as_str());
        proof {
            assert(d.ssids@[j as int]@ == d@.ssids[j as int]);
            assert(ssids.take(j + 1 as int) =~= ssids.take(j as int).push(
                spec_json_string(d@.ssids[j as int]),
            ));
            lemma_join_push(ssids.take(j as int), spec_json_string(d@.ssids[j as int]));
            assert(out@ =~= base2 + spec_join_comma(ssids.take(j + 1 as int)));
        }
        j = j + 1;
    }
    proof {
        assert(ssids.take(m as int) =~= ssids);
    }
    out.append("]}");
    proof {
        assert(out@ =~= spec_json_record(d@));
    }
    out
}

/// Writes a sequence of snapshots as a JSON array, in order.
pub fn json_array(items: &Vec<Data>) -> (r: String)
    ensures
        r@ == spec_json_array(items@.map_values(|d: Data| d@)),
{
    let ghost models = items@.map_values(|d: Data| d@);
    let ghost recs = models.map_values(|d: DataModel| spec_json_record(d));
    let mut out = String::new();
    push_char(&mut out, '[');
    proof {
        assert(out@ =~= seq!['['] + spec_join_comma(recs.take(0int)));
    }
    let n = items.len();
    let mut i: usize = 0;
    while i < n
        invariant
            i <= n,
            n == items@.len(),
            models == items@.map_values(|d: Data| d@),
            recs == models.map_values(|d: DataModel| spec_json_record(d)),
            out@ == seq!['['] + spec_join_comma(recs.take(i as int)),
        decreases n - i,
    {
        if i > 0 {
            out.append(",");
            proof {
                reveal_strlit(",");
                assert(","@ =~= seq![',']);
            }
        }
        let piece = json_record(&items[i]);
        out.append(piece.as_str());
        proof {
            assert(recs.take(i + 1 as int) =~= recs.take(i as int).push(
                spec_json_record(items@[i as int]@),
            ));
            lemma_join_push(recs.take(i as int), spec_json_record(items@[i as int]@));
            assert(out@ =~= seq!['['] + spec_join_comma(recs.take(i + 1 as int)));
        }
        i = i + 1;
    }
    push_char(&mut out, ']');
    proof {
        assert(recs.take(n as int) =~= recs);
        assert(out@ =~= spec_json_array(models));
    }
    out
}

/// The serialized array never holds a NUL character either.
pub proof fn lemma_json_array_no_nul(ds: Seq<DataModel>)
    ensures
        no_nul(spec_json_array(ds)),
{
    let recs = ds.map_values(|d: DataModel| spec_json_record(d));
    assert forall|i: int| 0 <= i < recs.len() implies no_nul(#[trigger] recs[i]) by {
        lemma_json_record_no_nul(ds[i]);
    };
    lemma_join_no_nul(recs);
    lemma_no_nul_concat(seq!['['], spec_join_comma(recs));
    lemma_no_nul_concat(seq!['['] + spec_join_comma(recs), seq![']']);
}

} // verus!
