//! The persisted form of the adapter state: one JSON document, written and
//! read by the library itself so that persistence round-trips are proved,
//! not assumed.
//!
//! The writer emits one canonical document; the reader accepts what the
//! writer emits (and rejects everything it cannot make sense of, which the
//! caller treats as a corrupt file).

use vstd::prelude::*;

use crate::state::{entries_view, removed_view, AppRecord, AppRecordModel, State, StateModel};
use crate::text::{chars_vec, string_from_chars};

verus! {

/// How one character is written inside a JSON string: quote, backslash and
/// the common control characters get a two-character escape, everything else
/// stands for itself.
pub open spec fn esc_char(c: char) -> Seq<char> {
    if c == '"' {
        seq!['\\', '"']
    } else if c == '\\' {
        seq!['\\', '\\']
    } else if c == '\n' {
        seq!['\\', 'n']
    } else if c == '\r' {
        seq!['\\', 'r']
    } else if c == '\t' {
        seq!['\\', 't']
    } else {
        seq![c]
    }
}

/// A whole character sequence, escaped.
pub open spec fn escaped(s: Seq<char>) -> Seq<char>
    decreases s.len(),
{
    if s.len() == 0 {
        Seq::empty()
    } else {
        esc_char(s[0]) + escaped(s.drop_first())
    }
}

/// `escaped` distributes over concatenation.
pub proof fn lemma_escaped_concat(a: Seq<char>, b: Seq<char>)
    ensures
        escaped(a + b) == escaped(a) + escaped(b),
    decreases a.len(),
{
    if a.len() == 0 {
        assert(a + b =~= b);
        assert(escaped(a) + escaped(b) =~= escaped(b));
    } else {
        assert((a + b)[0] == a[0]);
        assert((a + b).drop_first() =~= a.drop_first() + b);
        lemma_escaped_concat(a.drop_first(), b);
        assert(escaped(a + b) =~= escaped(a) + escaped(b));
    }
}

/// A JSON string token: the escaped content between two quotes.
pub open spec fn json_string(s: Seq<char>) -> Seq<char> {
    seq!['"'] + escaped(s) + seq!['"']
}

/// The character for one decimal digit.
pub open spec fn digit_char(d: int) -> char {
    if d == 0 {
        '0'
    } else if d == 1 {
        '1'
    } else if d == 2 {
        '2'
    } else if d == 3 {
        '3'
    } else if d == 4 {
        '4'
    } else if d == 5 {
        '5'
    } else if d == 6 {
        '6'
    } else if d == 7 {
        '7'
    } else if d == 8 {
        '8'
    } else {
        '9'
    }
}

/// The decimal digits of a nonnegative number, most significant first.
pub open spec fn dec_digits(n: int) -> Seq<char>
    recommends
        n >= 0,
    decreases n,
{
    if n < 10 {
        seq![digit_char(n)]
    } else {
        dec_digits(n / 10) + seq![digit_char(n % 10)]
    }
}

/// A boolean token.
pub open spec fn json_bool(b: bool) -> Seq<char> {
    if b {
        seq!['t', 'r', 'u', 'e']
    } else {
        seq!['f', 'a', 'l', 's', 'e']
    }
}

/// An optional time: `null` or a number.
pub open spec fn json_opt_u64(o: Option<u64>) -> Seq<char> {
    match o {
        None => seq!['n', 'u', 'l', 'l'],
        Some(n) => dec_digits(n as int),
    }
}

/// The removed identifiers, comma-separated.
pub open spec fn json_removed_items(rs: Seq<Seq<char>>) -> Seq<char>
    decreases rs.len(),
{
    if rs.len() == 0 {
        Seq::empty()
    } else if rs.len() == 1 {
        json_string(rs[0])
    } else {
        json_string(rs[0]) + seq![','] + json_removed_items(rs.drop_first())
    }
}

/// One recorded app, as a JSON object.
pub open spec fn json_entry(e: (Seq<char>, AppRecordModel)) -> Seq<char> {
    "{\"id\":"@ + json_string(e.0) + ",\"name\":"@ + json_string(e.1.name) + ",\"url\":"@
        + json_string(e.1.url) + ",\"added_at\":"@ + dec_digits(e.1.added_at as int) + "}"@
}

/// The recorded apps, comma-separated.
pub open spec fn json_entry_items(es: Seq<(Seq<char>, AppRecordModel)>) -> Seq<char>
    decreases es.len(),
{
    if es.len() == 0 {
        Seq::empty()
    } else if es.len() == 1 {
        json_entry(es[0])
    } else {
        json_entry(es[0]) + seq![','] + json_entry_items(es.drop_first())
    }
}

/// The whole persisted document for a state.
pub open spec fn state_json(v: StateModel) -> Seq<char> {
    "{\"version\":"@ + json_string(v.version) + ",\"first_boot_completed\":"@ + json_bool(
        v.first_boot_completed,
    ) + ",\"removed_apps\":["@ + json_removed_items(v.removed_apps) + "],\"last_sync\":"@
        + json_opt_u64(v.last_sync) + ",\"discovered_apps\":["@ + json_entry_items(
        v.discovered_apps,
    ) + "]}"@
}

/// Append a literal to the output.
pub(crate) fn write_lit(out: &mut Vec<char>, lit: &str)
    ensures
        final(out)@ == old(out)@ + lit@,
{
    let cs = chars_vec(lit);
    let n = cs.len();
    let mut i: usize = 0;
    proof {
        assert(out@ + lit@.take(0) =~= out@);
    }
    while i < n
        invariant
            n == cs.len(),
            cs@ == lit@,
            i <= n,
            out@ == old(out)@ + lit@.take(i as int),
        decreases n - i,
    {
        out.push(cs[i]);
        i += 1;
        proof {
            assert(old(out)@ + lit@.take(i as int) =~= (old(out)@ + lit@.take(i as int - 1)).push(
                lit@[i as int - 1],
            ));
        }
    }
    proof {
        assert(lit@.take(n as int) =~= lit@);
    }
}

/// Append one escaped character.
fn write_esc_char(out: &mut Vec<char>, c: char)
    ensures
        final(out)@ == old(out)@ + esc_char(c),
{
    if c == '"' {
        out.push('\\');
        out.push('"');
    } else if c == '\\' {
        out.push('\\');
        out.push('\\');
    } else if c == '\n' {
        out.push('\\');
        out.push('n');
    } else if c == '\r' {
        out.push('\\');
        out.push('r');
    } else if c == '\t' {
        out.push('\\');
        out.push('t');
    } else {
        out.push(c);
    }
    proof {
        assert(final(out)@ =~= old(out)@ + esc_char(c));
    }
}

/// Append a JSON string token.
pub(crate) fn write_string(out: &mut Vec<char>, s: &str)
    ensures
        final(out)@ == old(out)@ + json_string(s@),
{
    out.push('"');
    let cs = chars_vec(s);
    let n = cs.len();
    let mut i: usize = 0;
    proof {
        assert(escaped(s@.take(0)) =~= Seq::<char>::empty());
        assert(out@ =~= old(out)@ + seq!['"'] + escaped(s@.take(0)));
    }
    while i < n
        invariant
            n == cs.len(),
            cs@ == s@,
            i <= n,
            out@ == old(out)@ + seq!['"'] + escaped(s@.take(i as int)),
        decreases n - i,
    {
        write_esc_char(out, cs[i]);
        i += 1;
        proof {
            assert(s@.take(i as int) =~= s@.take(i as int - 1) + seq![s@[i as int - 1]]);
            lemma_escaped_concat(s@.take(i as int - 1), seq![s@[i as int - 1]]);
            assert(seq![s@[i as int - 1]].drop_first() =~= Seq::<char>::empty());
            assert(escaped(Seq::<char>::empty()) =~= Seq::<char>::empty());
            assert(escaped(seq![s@[i as int - 1]]) =~= esc_char(s@[i as int - 1]));
            assert(out@ =~= old(out)@ + seq!['"'] + escaped(s@.take(i as int)));
        }
    }
    out.push('"');
    proof {
        assert(s@.take(n as int) =~= s@);
        assert(final(out)@ =~= old(out)@ + json_string(s@));
    }
}

/// Append the decimal digits of a number.
pub(crate) fn write_u64(out: &mut Vec<char>, n: u64)
    ensures
        final(out)@ == old(out)@ + dec_digits(n as int),
    decreases n,
{
    if n < 10 {
        out.push(digit_of(n));
        proof {
            assert(final(out)@ =~= old(out)@ + dec_digits(n as int));
        }
    } else {
        proof {
            assert(n / 10 < n) by (nonlinear_arith)
                requires
                    n >= 10,
            ;
        }
        write_u64(out, n / 10);
        out.push(digit_of(n % 10));
        proof {
            assert((n / 10) as int == n as int / 10);
            assert((n % 10) as int == n as int % 10);
            assert(final(out)@ =~= old(out)@ + dec_digits(n as int));
        }
    }
}

/// The character for one digit value.
fn digit_of(d: u64) -> (c: char)
    requires
        d < 10,
    ensures
        c == digit_char(d as int),
{
    if d == 0 {
        '0'
    } else if d == 1 {
        '1'
    } else if d == 2 {
        '2'
    } else if d == 3 {
        '3'
    } else if d == 4 {
        '4'
    } else if d == 5 {
        '5'
    } else if d == 6 {
        '6'
    } else if d == 7 {
        '7'
    } else if d == 8 {
        '8'
    } else {
        '9'
    }
}

/// Append the removed identifiers from position `k` on, comma-separated.
fn write_removed_items(out: &mut Vec<char>, v: &Vec<String>, k: usize)
    requires
        k <= v.len(),
    ensures
        final(out)@ == old(out)@ + json_removed_items(removed_view(v@).skip(k as int)),
    decreases v.len() - k,
{
    let ghost rs = removed_view(v@).skip(k as int);
    if k >= v.len() {
        proof {
            assert(final(out)@ =~= old(out)@ + json_removed_items(rs));
        }
    } else if k == v.len() - 1 {
        write_string(out, v[k].as_str());
        proof {
            assert(rs[0] == removed_view(v@)[k as int]);
            assert(final(out)@ =~= old(out)@ + json_removed_items(rs));
        }
    } else {
        write_string(out, v[k].as_str());
        write_lit(out, ",");
        write_removed_items(out, v, k + 1);
        proof {
            assert(rs[0] == removed_view(v@)[k as int]);
            assert(rs.drop_first() =~= removed_view(v@).skip(k as int + 1));
            assert(","@ =~= seq![',']) by {
                reveal_strlit(",");
            }
            assert(final(out)@ =~= old(out)@ + json_removed_items(rs));
        }
    }
}

/// Append one recorded app as a JSON object.
fn write_entry(out: &mut Vec<char>, id: &String, rec: &AppRecord)
    ensures
        final(out)@ == old(out)@ + json_entry((id@, rec@)),
{
    write_lit(out, "{\"id\":");
    write_string(out, id.as_str());
    write_lit(out, ",\"name\":");
    write_string(out, rec.name.as_str());
    write_lit(out, ",\"url\":");
    write_string(out, rec.url.as_str());
    write_lit(out, ",\"added_at\":");
    write_u64(out, rec.added_at);
    write_lit(out, "}");
    proof {
        assert(final(out)@ =~= old(out)@ + json_entry((id@, rec@)));
    }
}

/// Append the recorded apps from position `k` on, comma-separated.
fn write_entry_items(out: &mut Vec<char>, v: &Vec<(String, AppRecord)>, k: usize)
    requires
        k <= v.len(),
    ensures
        final(out)@ == old(out)@ + json_entry_items(entries_view(v@).skip(k as int)),
    decreases v.len() - k,
{
    let ghost es = entries_view(v@).skip(k as int);
    if k >= v.len() {
        proof {
            assert(final(out)@ =~= old(out)@ + json_entry_items(es));
        }
    } else if k == v.len() - 1 {
        write_entry(out, &v[k].0, &v[k].1);
        proof {
            assert(es[0] == entries_view(v@)[k as int]);
            assert(final(out)@ =~= old(out)@ + json_entry_items(es));
        }
    } else {
        write_entry(out, &v[k].0, &v[k].1);
        write_lit(out, ",");
        write_entry_items(out, v, k + 1);
        proof {
            assert(es[0] == entries_view(v@)[k as int]);
            assert(es.drop_first() =~= entries_view(v@).skip(k as int + 1));
            assert(","@ =~= seq![',']) by {
                reveal_strlit(",");
            }
            assert(final(out)@ =~= old(out)@ + json_entry_items(es));
        }
    }
}

/// Decimal digit test.
pub open spec fn is_digit(c: char) -> bool {
    c == '0' || c == '1' || c == '2' || c == '3' || c == '4' || c == '5' || c == '6' || c == '7'
        || c == '8' || c == '9'
}

/// The value of one digit character.
pub open spec fn digit_val(c: char) -> int {
    if c == '0' {
        0
    } else if c == '1' {
        1
    } else if c == '2' {
        2
    } else if c == '3' {
        3
    } else if c == '4' {
        4
    } else if c == '5' {
        5
    } else if c == '6' {
        6
    } else if c == '7' {
        7
    } else if c == '8' {
        8
    } else {
        9
    }
}

/// What an escape code stands for, if it is one the writer emits.
pub open spec fn unesc_char(c: char) -> Option<char> {
    if c == '"' {
        Some('"')
    } else if c == '\\' {
        Some('\\')
    } else if c == 'n' {
        Some('\n')
    } else if c == 'r' {
        Some('\r')
    } else if c == 't' {
        Some('\t')
    } else {
        None
    }
}

/// Reading an exact literal at position `i`: the position after it, or
/// nothing if the input differs there.
pub open spec fn sp_lit(inp: Seq<char>, i: int, lit: Seq<char>) -> Option<int> {
    if 0 <= i && i + lit.len() <= inp.len() && inp.subrange(i, i + lit.len()) == lit {
        Some(i + lit.len())
    } else {
        None
    }
}

/// Reading a string body after its opening quote: the unescaped content and
/// the position after the closing quote.
pub open spec fn sp_strbody(inp: Seq<char>, i: int) -> Option<(Seq<char>, int)>
    decreases inp.len() - i,
{
    if i < 0 || i >= inp.len() {
        None
    } else if inp[i] == '"' {
        Some((Seq::empty(), i + 1))
    } else if inp[i] == '\\' {
        if i + 1 < inp.len() && unesc_char(inp[i + 1]) is Some {
            match sp_strbody(inp, i + 2) {
                Some(p) => match unesc_char(inp[i + 1]) {
                    Some(c) => Some((seq![c] + p.0, p.1)),
                    None => None,
                },
                None => None,
            }
        } else {
            None
        }
    } else {
        match sp_strbody(inp, i + 1) {
            Some(p) => Some((seq![inp[i]] + p.0, p.1)),
            None => None,
        }
    }
}

/// Reading a whole string token, quotes included.
pub open spec fn sp_qstring(inp: Seq<char>, i: int) -> Option<(Seq<char>, int)> {
    if 0 <= i < inp.len() && inp[i] == '"' {
        sp_strbody(inp, i + 1)
    } else {
        None
    }
}

/// Reading a digit run into an accumulator; a value beyond `u64` is refused.
pub open spec fn sp_digits(inp: Seq<char>, i: int, acc: u64) -> Option<(u64, int)>
    decreases inp.len() - i,
{
    if 0 <= i < inp.len() && is_digit(inp[i]) {
        if acc as int * 10 + digit_val(inp[i]) > u64::MAX as int {
            None
        } else {
            sp_digits(inp, i + 1, (acc as int * 10 + digit_val(inp[i])) as u64)
        }
    } else {
        Some((acc, i))
    }
}

/// Reading a number: at least one digit.
pub open spec fn sp_number(inp: Seq<char>, i: int) -> Option<(u64, int)> {
    if 0 <= i < inp.len() && is_digit(inp[i]) {
        sp_digits(inp, i, 0)
    } else {
        None
    }
}

/// Reading a boolean token.
pub open spec fn sp_bool(inp: Seq<char>, i: int) -> Option<(bool, int)> {
    match sp_lit(inp, i, "true"@) {
        Some(j) => Some((true, j)),
        None => match sp_lit(inp, i, "false"@) {
            Some(j) => Some((false, j)),
            None => None,
        },
    }
}

/// Reading `null` or a number.
pub open spec fn sp_opt_u64(inp: Seq<char>, i: int) -> Option<(Option<u64>, int)> {
    match sp_lit(inp, i, "null"@) {
        Some(j) => Some((None, j)),
        None => match sp_number(inp, i) {
            Some(p) => Some((Some(p.0), p.1)),
            None => None,
        },
    }
}

/// Reading one or more comma-separated string tokens.
pub open spec fn sp_removed_items(inp: Seq<char>, i: int) -> Option<(Seq<Seq<char>>, int)>
    decreases inp.len() - i,
{
    match sp_qstring(inp, i) {
        Some(p) => if i < p.1 && p.1 < inp.len() && inp[p.1] == ',' {
            match sp_removed_items(inp, p.1 + 1) {
                Some(q) => Some((seq![p.0] + q.0, q.1)),
                None => None,
            }
        } else {
            Some((seq![p.0], p.1))
        },
        None => None,
    }
}

/// Reading the front half of a recorded app object: its id and name.
pub open spec fn sp_entry_head(inp: Seq<char>, i: int) -> Option<((Seq<char>, Seq<char>), int)> {
    match sp_lit(inp, i, "{\"id\":"@) {
        Some(j1) => match sp_qstring(inp, j1) {
            Some(pid) => match sp_lit(inp, pid.1, ",\"name\":"@) {
                Some(j2) => match sp_qstring(inp, j2) {
                    Some(pname) => Some(((pid.0, pname.0), pname.1)),
                    None => None,
                },
                None => None,
            },
            None => None,
        },
        None => None,
    }
}

/// Reading one recorded app object.
pub open spec fn sp_entry(inp: Seq<char>, i: int) -> Option<((Seq<char>, AppRecordModel), int)> {
    match sp_entry_head(inp, i) {
        Some(ph) => match sp_lit(inp, ph.1, ",\"url\":"@) {
            Some(j3) => match sp_qstring(inp, j3) {
                Some(purl) => match sp_lit(inp, purl.1, ",\"added_at\":"@) {
                    Some(j4) => match sp_number(inp, j4) {
                        Some(pnum) => match sp_lit(inp, pnum.1, "}"@) {
                            Some(j5) => Some(
                                (
                                    (
                                        ph.0.0,
                                        AppRecordModel {
                                            name: ph.0.1,
                                            url: purl.0,
                                            added_at: pnum.0,
                                        },
                                    ),
                                    j5,
                                ),
                            ),
                            None => None,
                        },
                        None => None,
                    },
                    None => None,
                },
                None => None,
            },
            None => None,
        },
        None => None,
    }
}

/// Reading one or more comma-separated app objects.
pub open spec fn sp_entry_items(inp: Seq<char>, i: int) -> Option<
    (Seq<(Seq<char>, AppRecordModel)>, int),
>
    decreases inp.len() - i,
{
    match sp_entry(inp, i) {
        Some(p) => if i < p.1 && p.1 < inp.len() && inp[p.1] == ',' {
            match sp_entry_items(inp, p.1 + 1) {
                Some(q) => Some((seq![p.0] + q.0, q.1)),
                None => None,
            }
        } else {
            Some((seq![p.0], p.1))
        },
        None => None,
    }
}

/// Reading the front half of a persisted document: version, onboarding
/// flag and removed identifiers.
pub open spec fn sp_state_head(inp: Seq<char>) -> Option<((Seq<char>, bool, Seq<Seq<char>>), int)> {
    match sp_lit(inp, 0, "{\"version\":"@) {
        Some(j1) => match sp_qstring(inp, j1) {
            Some(pver) => match sp_lit(inp, pver.1, ",\"first_boot_completed\":"@) {
                Some(j2) => match sp_bool(inp, j2) {
                    Some(pboot) => match sp_lit(inp, pboot.1, ",\"removed_apps\":["@) {
                        Some(j3) => match sp_removed_tail(inp, j3) {
                            Some(prem) => Some(((pver.0, pboot.0, prem.0), prem.1)),
                            None => None,
                        },
                        None => None,
                    },
                    None => None,
                },
                None => None,
            },
            None => None,
        },
        None => None,
    }
}

/// Reading a whole persisted document; the entire input must be consumed.
pub open spec fn sp_state(inp: Seq<char>) -> Option<StateModel> {
    match sp_state_head(inp) {
        Some(ph) => match sp_lit(inp, ph.1, "],\"last_sync\":"@) {
            Some(j4) => match sp_opt_u64(inp, j4) {
                Some(psync) => match sp_lit(inp, psync.1, ",\"discovered_apps\":["@) {
                    Some(j5) => match sp_entries_tail(inp, j5) {
                        Some(pent) => match sp_lit(inp, pent.1, "]}"@) {
                            Some(j6) => if j6 == inp.len() {
                                Some(
                                    StateModel {
                                        version: ph.0.0,
                                        first_boot_completed: ph.0.1,
                                        removed_apps: ph.0.2,
                                        last_sync: psync.0,
                                        discovered_apps: pent.0,
                                    },
                                )
                            } else {
                                None
                            },
                            None => None,
                        },
                        None => None,
                    },
                    None => None,
                },
                None => None,
            },
            None => None,
        },
        None => None,
    }
}

/// Reading the string items of an already opened array: empty if the next
/// character closes it, one or more items otherwise. The closing bracket is
/// left in place.
pub open spec fn sp_removed_tail(inp: Seq<char>, i: int) -> Option<(Seq<Seq<char>>, int)> {
    if 0 <= i < inp.len() && inp[i] == ']' {
        Some((Seq::empty(), i))
    } else {
        sp_removed_items(inp, i)
    }
}

/// Reading the object items of an already opened array, as
/// [`sp_removed_tail`] does for strings.
pub open spec fn sp_entries_tail(inp: Seq<char>, i: int) -> Option<
    (Seq<(Seq<char>, AppRecordModel)>, int),
> {
    if 0 <= i < inp.len() && inp[i] == ']' {
        Some((Seq::empty(), i))
    } else {
        sp_entry_items(inp, i)
    }
}

/// Reading a literal where that very literal stands succeeds.
proof fn lemma_sp_lit_exact(pre: Seq<char>, lit: Seq<char>, rest: Seq<char>)
    ensures
        sp_lit(pre + lit + rest, pre.len() as int, lit) == Some((pre.len() + lit.len()) as int),
{
    let inp = pre + lit + rest;
    assert(inp.subrange(pre.len() as int, (pre.len() + lit.len()) as int) =~= lit);
}

/// Reading a string body where an escaped content and its closing quote
/// stand yields that very content.
proof fn lemma_sp_strbody_exact(pre: Seq<char>, s: Seq<char>, rest: Seq<char>)
    ensures
        sp_strbody(pre + escaped(s) + seq!['"'] + rest, pre.len() as int) == Some(
            (s, (pre.len() + escaped(s).len() + 1) as int),
        ),
    decreases s.len(),
{
    let inp = pre + escaped(s) + seq!['"'] + rest;
    let i = pre.len() as int;
    if s.len() == 0 {
        assert(escaped(s) =~= Seq::<char>::empty());
        assert(inp[i] == '"');
        assert(s =~= Seq::<char>::empty());
    } else {
        let c = s[0];
        let e0 = esc_char(c);
        let s1 = s.drop_first();
        assert(escaped(s) == e0 + escaped(s1));
        let pre2 = pre + e0;
        assert(inp =~= pre2 + escaped(s1) + seq!['"'] + rest);
        lemma_sp_strbody_exact(pre2, s1, rest);
        assert(inp[i] == e0[0]);
        if c == '"' || c == '\\' || c == '\n' || c == '\r' || c == '\t' {
            assert(e0.len() == 2);
            assert(inp[i + 1] == e0[1]);
            assert(unesc_char(e0[1]) == Some(c));
            assert(i + 1 < inp.len());
            assert(sp_strbody(inp, i + 2) == Some((s1, (pre2.len() + escaped(s1).len() + 1) as int)));
            assert(seq![c] + s1 =~= s);
        } else {
            assert(e0 =~= seq![c]);
            assert(inp[i] == c);
            assert(sp_strbody(inp, i + 1) == Some((s1, (pre2.len() + escaped(s1).len() + 1) as int)));
            assert(seq![c] + s1 =~= s);
        }
    }
}

/// Reading a string token where one stands yields its content.
proof fn lemma_sp_qstring_exact(pre: Seq<char>, s: Seq<char>, rest: Seq<char>)
    ensures
        sp_qstring(pre + json_string(s) + rest, pre.len() as int) == Some(
            (s, (pre.len() + json_string(s).len()) as int),
        ),
{
    let inp = pre + json_string(s) + rest;
    let i = pre.len() as int;
    assert(inp[i] == '"');
    let pre2 = pre + seq!['"'];
    assert(inp =~= pre2 + escaped(s) + seq!['"'] + rest);
    lemma_sp_strbody_exact(pre2, s, rest);
}

/// The value a digit run denotes, folded onto an accumulator.
pub open spec fn fold_val(acc: int, ds: Seq<char>) -> int
    decreases ds.len(),
{
    if ds.len() == 0 {
        acc
    } else {
        fold_val(acc * 10 + digit_val(ds[0]), ds.drop_first())
    }
}

/// Every character of `ds` is a digit.
pub open spec fn all_digits(ds: Seq<char>) -> bool {
    forall|k: int| 0 <= k < ds.len() ==> is_digit(ds[k])
}

/// `fold_val` processes a concatenation left part first.
proof fn lemma_fold_concat(acc: int, a: Seq<char>, b: Seq<char>)
    ensures
        fold_val(acc, a + b) == fold_val(fold_val(acc, a), b),
    decreases a.len(),
{
    if a.len() == 0 {
        assert(a + b =~= b);
    } else {
        assert((a + b)[0] == a[0]);
        assert((a + b).drop_first() =~= a.drop_first() + b);
        lemma_fold_concat(acc * 10 + digit_val(a[0]), a.drop_first(), b);
    }
}

/// Folding digits never shrinks a nonnegative accumulator.
proof fn lemma_fold_bounds(acc: int, ds: Seq<char>)
    requires
        acc >= 0,
    ensures
        fold_val(acc, ds) >= acc,
    decreases ds.len(),
{
    if ds.len() == 0 {
    } else {
        assert(acc * 10 >= acc) by (nonlinear_arith)
            requires
                acc >= 0,
        ;
        lemma_fold_bounds(acc * 10 + digit_val(ds[0]), ds.drop_first());
    }
}

/// Reading a digit run where one stands, followed by a non-digit, yields its
/// folded value.
proof fn lemma_sp_digits_exact(pre: Seq<char>, ds: Seq<char>, rest: Seq<char>, acc: u64)
    requires
        all_digits(ds),
        rest.len() == 0 || !is_digit(rest[0]),
        fold_val(acc as int, ds) <= u64::MAX as int,
    ensures
        sp_digits(pre + ds + rest, pre.len() as int, acc) == Some(
            ((fold_val(acc as int, ds)) as u64, (pre.len() + ds.len()) as int),
        ),
    decreases ds.len(),
{
    let inp = pre + ds + rest;
    let i = pre.len() as int;
    if ds.len() == 0 {
        if i < inp.len() {
            assert(inp[i] == rest[0]);
        }
    } else {
        assert(inp[i] == ds[0]);
        let d = digit_val(ds[0]);
        let acc2 = acc as int * 10 + d;
        lemma_fold_bounds(acc2, ds.drop_first());
        assert(fold_val(acc as int, ds) == fold_val(acc2, ds.drop_first()));
        assert(acc2 <= u64::MAX as int);
        let pre2 = pre + seq![ds[0]];
        assert(inp =~= pre2 + ds.drop_first() + rest);
        lemma_sp_digits_exact(pre2, ds.drop_first(), rest, acc2 as u64);
    }
}

/// The decimal digits of a number are digits, and at least one.
proof fn lemma_dec_digits_all(n: int)
    requires
        n >= 0,
    ensures
        all_digits(dec_digits(n)),
        dec_digits(n).len() >= 1,
        is_digit(dec_digits(n)[0]),
    decreases n,
{
    if n < 10 {
    } else {
        lemma_dec_digits_all(n / 10);
        let ds = dec_digits(n);
        let dd = dec_digits(n / 10);
        assert forall|k: int| 0 <= k < ds.len() implies is_digit(ds[k]) by {
            if k < dd.len() {
                assert(ds[k] == dd[k]);
            } else {
                assert(ds[k] == digit_char(n % 10));
            }
        }
        assert(ds[0] == dd[0]);
    }
}

/// Folding the decimal digits of a number recovers the number.
proof fn lemma_fold_dec(n: u64)
    ensures
        fold_val(0, dec_digits(n as int)) == n as int,
    decreases n,
{
    if n < 10 {
        let ds = dec_digits(n as int);
        assert(ds =~= seq![digit_char(n as int)]);
        assert(ds.drop_first() =~= Seq::<char>::empty());
        assert(fold_val(digit_val(digit_char(n as int)), Seq::<char>::empty()) == digit_val(
            digit_char(n as int),
        ));
        assert(fold_val(0, ds) == digit_val(digit_char(n as int)));
    } else {
        assert(n / 10 < n) by (nonlinear_arith)
            requires
                n >= 10,
        ;
        lemma_fold_dec(n / 10);
        let dd = dec_digits(n as int / 10);
        let tail = seq![digit_char(n as int % 10)];
        assert((n / 10) as int == n as int / 10);
        lemma_fold_concat(0, dd, tail);
        assert(tail.drop_first() =~= Seq::<char>::empty());
        assert(fold_val(n as int / 10 * 10 + digit_val(digit_char(n as int % 10)), Seq::<
            char,
        >::empty()) == n as int / 10 * 10 + digit_val(digit_char(n as int % 10)));
        assert(fold_val(n as int / 10, tail) == n as int / 10 * 10 + digit_val(
            digit_char(n as int % 10),
        ));
        assert(digit_val(digit_char(n as int % 10)) == n as int % 10);
        assert(n as int / 10 * 10 + n as int % 10 == n as int);
    }
}

/// Reading a number where the digits of `n` stand, followed by a non-digit,
/// yields `n`.
proof fn lemma_sp_number_exact(pre: Seq<char>, n: u64, rest: Seq<char>)
    requires
        rest.len() == 0 || !is_digit(rest[0]),
    ensures
        sp_number(pre + dec_digits(n as int) + rest, pre.len() as int) == Some(
            (n, (pre.len() + dec_digits(n as int).len()) as int),
        ),
{
    let ds = dec_digits(n as int);
    let inp = pre + ds + rest;
    let i = pre.len() as int;
    lemma_dec_digits_all(n as int);
    lemma_fold_dec(n);
    assert(inp[i] == ds[0]);
    lemma_sp_digits_exact(pre, ds, rest, 0);
}

/// Reading a boolean token where one stands.
proof fn lemma_sp_bool_exact(pre: Seq<char>, b: bool, rest: Seq<char>)
    ensures
        sp_bool(pre + json_bool(b) + rest, pre.len() as int) == Some(
            (b, (pre.len() + json_bool(b).len()) as int),
        ),
{
    let inp = pre + json_bool(b) + rest;
    let i = pre.len() as int;
    reveal_strlit("true");
    reveal_strlit("false");
    if b {
        assert(json_bool(true) =~= "true"@);
        assert(inp =~= pre + "true"@ + rest);
        lemma_sp_lit_exact(pre, "true"@, rest);
    } else {
        assert(inp[i] == json_bool(false)[0]);
        if sp_lit(inp, i, "true"@) is Some {
            let sub = inp.subrange(i, i + "true"@.len());
            assert(sub == "true"@);
            assert(sub[0] == inp[i]);
            assert(false);
        }
        assert(json_bool(false) =~= "false"@);
        assert(inp =~= pre + "false"@ + rest);
        lemma_sp_lit_exact(pre, "false"@, rest);
    }
}

/// Reading null-or-number where one stands, followed by a non-digit.
proof fn lemma_sp_opt_exact(pre: Seq<char>, o: Option<u64>, rest: Seq<char>)
    requires
        rest.len() == 0 || !is_digit(rest[0]),
    ensures
        sp_opt_u64(pre + json_opt_u64(o) + rest, pre.len() as int) == Some(
            (o, (pre.len() + json_opt_u64(o).len()) as int),
        ),
{
    let inp = pre + json_opt_u64(o) + rest;
    let i = pre.len() as int;
    reveal_strlit("null");
    match o {
        None => {
            assert(json_opt_u64(o) =~= "null"@);
            assert(inp =~= pre + "null"@ + rest);
            lemma_sp_lit_exact(pre, "null"@, rest);
        },
        Some(n) => {
            lemma_dec_digits_all(n as int);
            assert(inp[i] == dec_digits(n as int)[0]);
            assert(is_digit(inp[i]));
            if sp_lit(inp, i, "null"@) is Some {
                let sub = inp.subrange(i, i + "null"@.len());
                assert(sub == "null"@);
                assert(sub[0] == inp[i]);
                assert(false);
            }
            lemma_sp_number_exact(pre, n, rest);
        },
    }
}

/// Reading the string items where some stand, not followed by a comma.
proof fn lemma_sp_removed_items_exact(pre: Seq<char>, rs: Seq<Seq<char>>, rest: Seq<char>)
    requires
        rs.len() >= 1,
        rest.len() == 0 || rest[0] != ',',
    ensures
        sp_removed_items(pre + json_removed_items(rs) + rest, pre.len() as int) == Some(
            (rs, (pre.len() + json_removed_items(rs).len()) as int),
        ),
    decreases rs.len(),
{
    let inp = pre + json_removed_items(rs) + rest;
    let i = pre.len() as int;
    if rs.len() == 1 {
        assert(json_removed_items(rs) == json_string(rs[0]));
        lemma_sp_qstring_exact(pre, rs[0], rest);
        let j = (pre.len() + json_string(rs[0]).len()) as int;
        if j < inp.len() {
            assert(inp[j] == rest[0]);
        }
        assert(seq![rs[0]] =~= rs);
    } else {
        let s0 = rs[0];
        let rs1 = rs.drop_first();
        assert(json_removed_items(rs) == json_string(s0) + seq![','] + json_removed_items(rs1));
        let rest1 = seq![','] + json_removed_items(rs1) + rest;
        assert(inp =~= pre + json_string(s0) + rest1);
        lemma_sp_qstring_exact(pre, s0, rest1);
        let j = (pre.len() + json_string(s0).len()) as int;
        assert(inp[j] == ',');
        let pre2 = pre + json_string(s0) + seq![','];
        assert(inp =~= pre2 + json_removed_items(rs1) + rest);
        lemma_sp_removed_items_exact(pre2, rs1, rest);
        assert(seq![s0] + rs1 =~= rs);
    }
}

/// Reading the string items of an opened array whose closing bracket follows.
proof fn lemma_sp_removed_tail_exact(pre: Seq<char>, rs: Seq<Seq<char>>, rest: Seq<char>)
    requires
        rest.len() >= 1,
        rest[0] == ']',
    ensures
        sp_removed_tail(pre + json_removed_items(rs) + rest, pre.len() as int) == Some(
            (rs, (pre.len() + json_removed_items(rs).len()) as int),
        ),
{
    let inp = pre + json_removed_items(rs) + rest;
    let i = pre.len() as int;
    if rs.len() == 0 {
        assert(json_removed_items(rs) =~= Seq::<char>::empty());
        assert(inp[i] == ']');
        assert(rs =~= Seq::<Seq<char>>::empty());
    } else {
        assert(json_removed_items(rs)[0] == json_string(rs[0])[0]);
        assert(inp[i] == json_string(rs[0])[0]);
        assert(inp[i] == '"');
        lemma_sp_removed_items_exact(pre, rs, rest);
    }
}

/// Concatenation is associative.
proof fn lemma_assoc(a: Seq<char>, b: Seq<char>, c: Seq<char>)
    ensures
        (a + b) + c == a + (b + c),
{
    assert((a + b) + c =~= a + (b + c));
}

/// Reading the front half of an app object where one stands.
#[verifier::rlimit(100)]
#[verifier::spinoff_prover]
proof fn lemma_sp_entry_head_exact(
    pre: Seq<char>,
    id: Seq<char>,
    name: Seq<char>,
    rest: Seq<char>,
)
    ensures
        sp_entry_head(
            pre + ("{\"id\":"@ + json_string(id) + ",\"name\":"@ + json_string(name)) + rest,
            pre.len() as int,
        ) == Some(
            (
                (id, name),
                (pre.len() + ("{\"id\":"@ + json_string(id) + ",\"name\":"@ + json_string(
                    name,
                )).len()) as int,
            ),
        ),
{
    let l1 = "{\"id\":"@;
    let l2 = ",\"name\":"@;
    let q1 = json_string(id);
    let q2 = json_string(name);
    let inp = pre + (l1 + q1 + l2 + q2) + rest;

    let r1 = q1 + l2 + q2 + rest;
    assert(inp =~= pre + l1 + r1);
    lemma_sp_lit_exact(pre, l1, r1);
    let p1 = pre + l1;

    let r2 = l2 + q2 + rest;
    assert(inp =~= p1 + q1 + r2);
    lemma_sp_qstring_exact(p1, id, r2);
    let p2 = p1 + q1;

    let r3 = q2 + rest;
    assert(inp =~= p2 + l2 + r3);
    lemma_sp_lit_exact(p2, l2, r3);
    let p3 = p2 + l2;

    assert(inp =~= p3 + q2 + rest);
    lemma_sp_qstring_exact(p3, name, rest);
}

/// Reading one app object where one stands.
#[verifier::rlimit(100)]
#[verifier::spinoff_prover]
proof fn lemma_sp_entry_exact(pre: Seq<char>, e: (Seq<char>, AppRecordModel), rest: Seq<char>)
    ensures
        sp_entry(pre + json_entry(e) + rest, pre.len() as int) == Some(
            (e, (pre.len() + json_entry(e).len()) as int),
        ),
{
    let l3 = ",\"url\":"@;
    let l4 = ",\"added_at\":"@;
    let l5 = "}"@;
    let head = "{\"id\":"@ + json_string(e.0) + ",\"name\":"@ + json_string(e.1.name);
    let q3 = json_string(e.1.url);
    let num = dec_digits(e.1.added_at as int);
    let inp = pre + json_entry(e) + rest;

    let c5 = l5 + rest;
    let c4 = num + c5;
    let c3 = l4 + c4;
    let c2 = q3 + c3;
    let c1 = l3 + c2;
    assert(inp =~= pre + (head + c1));
    lemma_assoc(pre, head, c1);
    lemma_sp_entry_head_exact(pre, e.0, e.1.name, c1);
    let p1 = pre + head;

    lemma_assoc(p1, l3, c2);
    lemma_sp_lit_exact(p1, l3, c2);
    let p2 = p1 + l3;

    lemma_assoc(p2, q3, c3);
    lemma_sp_qstring_exact(p2, e.1.url, c3);
    let p3 = p2 + q3;

    lemma_assoc(p3, l4, c4);
    lemma_sp_lit_exact(p3, l4, c4);
    let p4 = p3 + l4;

    reveal_strlit("}");
    assert(c5[0] == '}');
    assert(!is_digit(c5[0]));
    lemma_assoc(p4, num, c5);
    lemma_sp_number_exact(p4, e.1.added_at, c5);
    let p5 = p4 + num;

    lemma_assoc(p5, l5, rest);
    lemma_sp_lit_exact(p5, l5, rest);

    assert((e.0, AppRecordModel { name: e.1.name, url: e.1.url, added_at: e.1.added_at })
        =~= e);
}

/// Reading the app objects where some stand, not followed by a comma.
#[verifier::rlimit(100)]
#[verifier::spinoff_prover]
proof fn lemma_sp_entry_items_exact(
    pre: Seq<char>,
    es: Seq<(Seq<char>, AppRecordModel)>,
    rest: Seq<char>,
)
    requires
        es.len() >= 1,
        rest.len() == 0 || rest[0] != ',',
    ensures
        sp_entry_items(pre + json_entry_items(es) + rest, pre.len() as int) == Some(
            (es, (pre.len() + json_entry_items(es).len()) as int),
        ),
    decreases es.len(),
{
    let inp = pre + json_entry_items(es) + rest;
    if es.len() == 1 {
        assert(json_entry_items(es) == json_entry(es[0]));
        lemma_sp_entry_exact(pre, es[0], rest);
        let j = (pre.len() + json_entry(es[0]).len()) as int;
        if j < inp.len() {
            assert(inp[j] == rest[0]);
        }
        assert(seq![es[0]] =~= es);
    } else {
        let e0 = es[0];
        let es1 = es.drop_first();
        assert(json_entry_items(es) == json_entry(e0) + seq![','] + json_entry_items(es1));
        let rest1 = seq![','] + json_entry_items(es1) + rest;
        assert(inp =~= pre + json_entry(e0) + rest1);
        lemma_sp_entry_exact(pre, e0, rest1);
        let j = (pre.len() + json_entry(e0).len()) as int;
        assert(inp[j] == ',');
        let pre2 = pre + json_entry(e0) + seq![','];
        assert(inp =~= pre2 + json_entry_items(es1) + rest);
        lemma_sp_entry_items_exact(pre2, es1, rest);
        assert(seq![e0] + es1 =~= es);
    }
}

/// Reading the app objects of an opened array whose closing bracket follows.
proof fn lemma_sp_entries_tail_exact(
    pre: Seq<char>,
    es: Seq<(Seq<char>, AppRecordModel)>,
    rest: Seq<char>,
)
    requires
        rest.len() >= 1,
        rest[0] == ']',
    ensures
        sp_entries_tail(pre + json_entry_items(es) + rest, pre.len() as int) == Some(
            (es, (pre.len() + json_entry_items(es).len()) as int),
        ),
{
    let inp = pre + json_entry_items(es) + rest;
    let i = pre.len() as int;
    if es.len() == 0 {
        assert(json_entry_items(es) =~= Seq::<char>::empty());
        assert(inp[i] == ']');
        assert(es =~= Seq::<(Seq<char>, AppRecordModel)>::empty());
    } else {
        reveal_strlit("{\"id\":");
        assert(json_entry(es[0])[0] == "{\"id\":"@[0]);
        assert(json_entry_items(es)[0] == json_entry(es[0])[0]);
        assert(inp[i] == json_entry_items(es)[0]);
        assert(inp[i] == '{');
        lemma_sp_entry_items_exact(pre, es, rest);
    }
}

/// The persistence round trip: the document a state is saved as reads back
/// to that very state — every field, the removed set and the discovered map
/// included, survives unchanged.
/// Reading the front half of a persisted document where one stands.
#[verifier::rlimit(100)]
#[verifier::spinoff_prover]
proof fn lemma_sp_state_head_exact(v: StateModel, rest: Seq<char>)
    requires
        rest.len() >= 1,
        rest[0] == ']',
    ensures
        sp_state_head(
            ("{\"version\":"@ + json_string(v.version) + ",\"first_boot_completed\":"@
                + json_bool(v.first_boot_completed) + ",\"removed_apps\":["@
                + json_removed_items(v.removed_apps)) + rest,
        ) == Some(
            (
                (v.version, v.first_boot_completed, v.removed_apps),
                ("{\"version\":"@ + json_string(v.version) + ",\"first_boot_completed\":"@
                    + json_bool(v.first_boot_completed) + ",\"removed_apps\":["@
                    + json_removed_items(v.removed_apps)).len() as int,
            ),
        ),
{
    let l1 = "{\"version\":"@;
    let l2 = ",\"first_boot_completed\":"@;
    let l3 = ",\"removed_apps\":["@;
    let q1 = json_string(v.version);
    let b = json_bool(v.first_boot_completed);
    let rem = json_removed_items(v.removed_apps);
    let inp = (l1 + q1 + l2 + b + l3 + rem) + rest;

    let c5 = rem + rest;
    let c4 = l3 + c5;
    let c3 = b + c4;
    let c2 = l2 + c3;
    let c1 = q1 + c2;
    let p0 = Seq::<char>::empty();
    assert(inp =~= p0 + (l1 + c1));
    lemma_assoc(p0, l1, c1);
    lemma_sp_lit_exact(p0, l1, c1);
    let p1 = p0 + l1;

    lemma_assoc(p1, q1, c2);
    lemma_sp_qstring_exact(p1, v.version, c2);
    let p2 = p1 + q1;

    lemma_assoc(p2, l2, c3);
    lemma_sp_lit_exact(p2, l2, c3);
    let p3 = p2 + l2;

    lemma_assoc(p3, b, c4);
    lemma_sp_bool_exact(p3, v.first_boot_completed, c4);
    let p4 = p3 + b;

    lemma_assoc(p4, l3, c5);
    lemma_sp_lit_exact(p4, l3, c5);
    let p5 = p4 + l3;

    lemma_assoc(p5, rem, rest);
    lemma_sp_removed_tail_exact(p5, v.removed_apps, rest);
    assert(p0.len() == 0);
}

/// The persistence round trip: the document a state is saved as reads back
/// to that very state — every field, the removed set and the discovered map
/// included, survives unchanged.
/// The persistence round trip: the document a state is saved as reads back
/// to that very state — every field, the removed set and the discovered map
/// included, survives unchanged.
#[verifier::rlimit(100)]
#[verifier::spinoff_prover]
pub proof fn lemma_save_load_roundtrip(v: StateModel)
    ensures
        sp_state(state_json(v)) == Some(v),
{
    let inp = state_json(v);
    let l4 = "],\"last_sync\":"@;
    let l5 = ",\"discovered_apps\":["@;
    let l6 = "]}"@;
    let head = "{\"version\":"@ + json_string(v.version) + ",\"first_boot_completed\":"@
        + json_bool(v.first_boot_completed) + ",\"removed_apps\":["@ + json_removed_items(
        v.removed_apps,
    );
    let sync = json_opt_u64(v.last_sync);
    let ent = json_entry_items(v.discovered_apps);
    assert(inp == head + l4 + sync + l5 + ent + l6);

    reveal_strlit("],\"last_sync\":");
    let r1 = l4 + sync + l5 + ent + l6;
    assert(r1[0] == ']');
    assert(inp =~= head + r1);
    lemma_sp_state_head_exact(v, r1);
    let p1 = head;

    let r2 = sync + l5 + ent + l6;
    assert(inp =~= p1 + l4 + r2);
    lemma_sp_lit_exact(p1, l4, r2);
    let p2 = p1 + l4;

    reveal_strlit(",\"discovered_apps\":[");
    let r3 = l5 + ent + l6;
    assert(r3[0] == ',');
    assert(!is_digit(r3[0]));
    assert(inp =~= p2 + sync + r3);
    lemma_sp_opt_exact(p2, v.last_sync, r3);
    let p3 = p2 + sync;

    let r4 = ent + l6;
    assert(inp =~= p3 + l5 + r4);
    lemma_sp_lit_exact(p3, l5, r4);
    let p4 = p3 + l5;

    reveal_strlit("]}");
    let r5 = l6;
    assert(r5[0] == ']');
    assert(inp =~= p4 + ent + r5);
    lemma_sp_entries_tail_exact(p4, v.discovered_apps, r5);
    let p5 = p4 + ent;

    assert(inp =~= p5 + l6 + Seq::<char>::empty());
    lemma_sp_lit_exact(p5, l6, Seq::<char>::empty());
    assert((p5.len() + l6.len()) as int == inp.len() as int);

    assert(StateModel {
        version: v.version,
        first_boot_completed: v.first_boot_completed,
        removed_apps: v.removed_apps,
        last_sync: v.last_sync,
        discovered_apps: v.discovered_apps,
    } =~= v);
}

/// Read an exact literal.
fn p_lit(inp: &Vec<char>, i: usize, lit: &str) -> (r: Option<usize>)
    ensures
        match r {
            Some(j) => sp_lit(inp@, i as int, lit@) == Some(j as int) && i <= j <= inp@.len(),
            None => sp_lit(inp@, i as int, lit@) is None,
        },
{
    let cs = chars_vec(lit);
    let m = cs.len();
    if i > inp.len() || m > inp.len() - i {
        return None;
    }
    let mut k: usize = 0;
    while k < m
        invariant
            m == cs.len(),
            cs@ == lit@,
            i + m <= inp.len(),
            k <= m,
            forall|t: int| 0 <= t < k ==> inp@[i + t] == lit@[t],
        decreases m - k,
    {
        if inp[i + k] != cs[k] {
            proof {
                if sp_lit(inp@, i as int, lit@) is Some {
                    let sub = inp@.subrange(i as int, i + lit@.len());
                    assert(sub == lit@);
                    assert(sub[k as int] == inp@[i + k]);
                }
            }
            return None;
        }
        k += 1;
    }
    proof {
        assert(inp@.subrange(i as int, i + lit@.len()) =~= lit@);
    }
    Some(i + m)
}

/// Read a string body after its opening quote.
fn p_strbody(inp: &Vec<char>, i: usize) -> (r: Option<(Vec<char>, usize)>)
    ensures
        match r {
            Some(p) => sp_strbody(inp@, i as int) == Some((p.0@, p.1 as int)) && i < p.1
                <= inp@.len(),
            None => sp_strbody(inp@, i as int) is None,
        },
    decreases inp@.len() - i,
{
    if i >= inp.len() {
        return None;
    }
    let c = inp[i];
    if c == '"' {
        let v: Vec<char> = Vec::new();
        proof {
            assert(v@ =~= Seq::<char>::empty());
        }
        Some((v, i + 1))
    } else if c == '\\' {
        if i + 1 < inp.len() {
            let d = inp[i + 1];
            let u: Option<char> = if d == '"' {
                Some('"')
            } else if d == '\\' {
                Some('\\')
            } else if d == 'n' {
                Some('\n')
            } else if d == 'r' {
                Some('\r')
            } else if d == 't' {
                Some('\t')
            } else {
                None
            };
            match u {
                Some(uc) => match p_strbody(inp, i + 2) {
                    Some(p) => {
                        let ghost pv = p.0@;
                        let mut v = p.0;
                        let j = p.1;
                        v.insert(0, uc);
                        proof {
                            assert(v@ =~= seq![uc] + pv);
                        }
                        Some((v, j))
                    },
                    None => None,
                },
                None => None,
            }
        } else {
            None
        }
    } else {
        match p_strbody(inp, i + 1) {
            Some(p) => {
                let ghost pv = p.0@;
                let mut v = p.0;
                let j = p.1;
                v.insert(0, c);
                proof {
                    assert(v@ =~= seq![c] + pv);
                }
                Some((v, j))
            },
            None => None,
        }
    }
}

/// Read a whole string token, quotes included.
fn p_qstring(inp: &Vec<char>, i: usize) -> (r: Option<(String, usize)>)
    ensures
        match r {
            Some(p) => sp_qstring(inp@, i as int) == Some((p.0@, p.1 as int)) && i < p.1
                <= inp@.len(),
            None => sp_qstring(inp@, i as int) is None,
        },
{
    if i < inp.len() && inp[i] == '"' {
        match p_strbody(inp, i + 1) {
            Some(p) => Some((string_from_chars(&p.0), p.1)),
            None => None,
        }
    } else {
        None
    }
}

/// The value of a digit character, if it is one.
fn p_digit_val(c: char) -> (r: Option<u64>)
    ensures
        match r {
            Some(d) => is_digit(c) && d as int == digit_val(c) && d < 10,
            None => !is_digit(c),
        },
{
    if c == '0' {
        Some(0)
    } else if c == '1' {
        Some(1)
    } else if c == '2' {
        Some(2)
    } else if c == '3' {
        Some(3)
    } else if c == '4' {
        Some(4)
    } else if c == '5' {
        Some(5)
    } else if c == '6' {
        Some(6)
    } else if c == '7' {
        Some(7)
    } else if c == '8' {
        Some(8)
    } else if c == '9' {
        Some(9)
    } else {
        None
    }
}

/// Read a digit run into an accumulator.
fn p_digits(inp: &Vec<char>, i: usize, acc: u64) -> (r: Option<(u64, usize)>)
    requires
        i <= inp@.len(),
    ensures
        match r {
            Some(p) => sp_digits(inp@, i as int, acc) == Some((p.0, p.1 as int)) && i <= p.1
                <= inp@.len(),
            None => sp_digits(inp@, i as int, acc) is None,
        },
    decreases inp@.len() - i,
{
    if i >= inp.len() {
        return Some((acc, i));
    }
    match p_digit_val(inp[i]) {
        Some(d) => {
            proof {
                let m = u64::MAX as int;
                let q = (m - d) / 10;
                assert(q * 10 + (m - d) % 10 == m - d);
                if acc as int > q {
                    assert(acc as int * 10 >= (q + 1) * 10) by (nonlinear_arith)
                        requires
                            acc as int >= q + 1,
                    ;
                } else {
                    assert(acc as int * 10 <= q * 10) by (nonlinear_arith)
                        requires
                            acc as int <= q,
                    ;
                }
            }
            if acc > (u64::MAX - d) / 10 {
                None
            } else {
                p_digits(inp, i + 1, acc * 10 + d)
            }
        },
        None => Some((acc, i)),
    }
}

/// Read a number: at least one digit.
fn p_number(inp: &Vec<char>, i: usize) -> (r: Option<(u64, usize)>)
    ensures
        match r {
            Some(p) => sp_number(inp@, i as int) == Some((p.0, p.1 as int)) && i <= p.1
                <= inp@.len(),
            None => sp_number(inp@, i as int) is None,
        },
{
    if i < inp.len() {
        match p_digit_val(inp[i]) {
            Some(_) => p_digits(inp, i, 0),
            None => None,
        }
    } else {
        None
    }
}

/// Read a boolean token.
fn p_bool(inp: &Vec<char>, i: usize) -> (r: Option<(bool, usize)>)
    ensures
        match r {
            Some(p) => sp_bool(inp@, i as int) == Some((p.0, p.1 as int)) && i <= p.1
                <= inp@.len(),
            None => sp_bool(inp@, i as int) is None,
        },
{
    match p_lit(inp, i, "true") {
        Some(j) => Some((true, j)),
        None => match p_lit(inp, i, "false") {
            Some(j) => Some((false, j)),
            None => None,
        },
    }
}

/// Read `null` or a number.
fn p_opt_u64(inp: &Vec<char>, i: usize) -> (r: Option<(Option<u64>, usize)>)
    ensures
        match r {
            Some(p) => sp_opt_u64(inp@, i as int) == Some((p.0, p.1 as int)) && i <= p.1
                <= inp@.len(),
            None => sp_opt_u64(inp@, i as int) is None,
        },
{
    match p_lit(inp, i, "null") {
        Some(j) => Some((None, j)),
        None => match p_number(inp, i) {
            Some(p) => Some((Some(p.0), p.1)),
            None => None,
        },
    }
}

/// Read one or more comma-separated string tokens.
fn p_removed_items(inp: &Vec<char>, i: usize) -> (r: Option<(Vec<String>, usize)>)
    ensures
        match r {
            Some(p) => sp_removed_items(inp@, i as int) == Some((removed_view(p.0@), p.1 as int))
                && i < p.1 <= inp@.len(),
            None => sp_removed_items(inp@, i as int) is None,
        },
    decreases inp@.len() - i,
{
    match p_qstring(inp, i) {
        Some(p) => {
            let s = p.0;
            let j = p.1;
            if j < inp.len() && inp[j] == ',' {
                match p_removed_items(inp, j + 1) {
                    Some(q) => {
                        let ghost qv = q.0@;
                        let mut v = q.0;
                        let j2 = q.1;
                        v.insert(0, s);
                        proof {
                            assert(removed_view(v@) =~= seq![v@[0]@] + removed_view(qv));
                        }
                        Some((v, j2))
                    },
                    None => None,
                }
            } else {
                let mut v: Vec<String> = Vec::new();
                v.push(s);
                proof {
                    assert(removed_view(v@) =~= seq![v@[0]@]);
                }
                Some((v, j))
            }
        },
        None => None,
    }
}

/// Read one recorded app object.
fn p_entry(inp: &Vec<char>, i: usize) -> (r: Option<((String, AppRecord), usize)>)
    ensures
        match r {
            Some(p) => sp_entry(inp@, i as int) == Some(((p.0.0@, p.0.1@), p.1 as int)) && i < p.1
                <= inp@.len(),
            None => sp_entry(inp@, i as int) is None,
        },
{
    let j1 = match p_lit(inp, i, "{\"id\":") {
        Some(j) => j,
        None => {
            return None;
        },
    };
    let (id, j1b) = match p_qstring(inp, j1) {
        Some(p) => p,
        None => {
            return None;
        },
    };
    let j2 = match p_lit(inp, j1b, ",\"name\":") {
        Some(j) => j,
        None => {
            return None;
        },
    };
    let (name, j2b) = match p_qstring(inp, j2) {
        Some(p) => p,
        None => {
            return None;
        },
    };
    let j3 = match p_lit(inp, j2b, ",\"url\":") {
        Some(j) => j,
        None => {
            return None;
        },
    };
    let (url, j3b) = match p_qstring(inp, j3) {
        Some(p) => p,
        None => {
            return None;
        },
    };
    let j4 = match p_lit(inp, j3b, ",\"added_at\":") {
        Some(j) => j,
        None => {
            return None;
        },
    };
    let (added_at, j4b) = match p_number(inp, j4) {
        Some(p) => p,
        None => {
            return None;
        },
    };
    let j5 = match p_lit(inp, j4b, "}") {
        Some(j) => j,
        None => {
            return None;
        },
    };
    Some(((id, AppRecord { name, url, added_at }), j5))
}

/// Read one or more comma-separated app objects.
fn p_entry_items(inp: &Vec<char>, i: usize) -> (r: Option<(Vec<(String, AppRecord)>, usize)>)
    ensures
        match r {
            Some(p) => sp_entry_items(inp@, i as int) == Some((entries_view(p.0@), p.1 as int))
                && i < p.1 <= inp@.len(),
            None => sp_entry_items(inp@, i as int) is None,
        },
    decreases inp@.len() - i,
{
    match p_entry(inp, i) {
        Some(p) => {
            let e = p.0;
            let j = p.1;
            if j < inp.len() && inp[j] == ',' {
                match p_entry_items(inp, j + 1) {
                    Some(q) => {
                        let ghost qv = q.0@;
                        let mut v = q.0;
                        let j2 = q.1;
                        v.insert(0, e);
                        proof {
                            assert(entries_view(v@) =~= seq![(v@[0].0@, v@[0].1@)] + entries_view(
                                qv,
                            ));
                        }
                        Some((v, j2))
                    },
                    None => None,
                }
            } else {
                let mut v: Vec<(String, AppRecord)> = Vec::new();
                v.push(e);
                proof {
                    assert(entries_view(v@) =~= seq![(v@[0].0@, v@[0].1@)]);
                }
                Some((v, j))
            }
        },
        None => None,
    }
}

/// Read the string items of an already opened array.
fn p_removed_tail(inp: &Vec<char>, i: usize) -> (r: Option<(Vec<String>, usize)>)
    ensures
        match r {
            Some(p) => sp_removed_tail(inp@, i as int) == Some((removed_view(p.0@), p.1 as int))
                && i <= p.1 <= inp@.len(),
            None => sp_removed_tail(inp@, i as int) is None,
        },
{
    if i < inp.len() && inp[i] == ']' {
        let v: Vec<String> = Vec::new();
        proof {
            assert(removed_view(v@) =~= Seq::<Seq<char>>::empty());
        }
        Some((v, i))
    } else {
        p_removed_items(inp, i)
    }
}

/// Read the object items of an already opened array.
fn p_entries_tail(inp: &Vec<char>, i: usize) -> (r: Option<(Vec<(String, AppRecord)>, usize)>)
    ensures
        match r {
            Some(p) => sp_entries_tail(inp@, i as int) == Some((entries_view(p.0@), p.1 as int))
                && i <= p.1 <= inp@.len(),
            None => sp_entries_tail(inp@, i as int) is None,
        },
{
    if i < inp.len() && inp[i] == ']' {
        let v: Vec<(String, AppRecord)> = Vec::new();
        proof {
            assert(entries_view(v@) =~= Seq::<(Seq<char>, AppRecordModel)>::empty());
        }
        Some((v, i))
    } else {
        p_entry_items(inp, i)
    }
}

impl State {
    /// Read a state back from its persisted document. `None` means the text
    /// is not a document this library wrote: the caller falls back to the
    /// default state.
    pub fn from_json(text: &str) -> (r: Option<State>)
        ensures
            match r {
                Some(st) => sp_state(text@) == Some(st@),
                None => sp_state(text@) is None,
            },
    {
        let inp = chars_vec(text);
        let j1 = match p_lit(&inp, 0, "{\"version\":") {
            Some(j) => j,
            None => {
                return None;
            },
        };
        let (version, j1b) = match p_qstring(&inp, j1) {
            Some(p) => p,
            None => {
                return None;
            },
        };
        let j2 = match p_lit(&inp, j1b, ",\"first_boot_completed\":") {
            Some(j) => j,
            None => {
                return None;
            },
        };
        let (first_boot_completed, j2b) = match p_bool(&inp, j2) {
            Some(p) => p,
            None => {
                return None;
            },
        };
        let j3 = match p_lit(&inp, j2b, ",\"removed_apps\":[") {
            Some(j) => j,
            None => {
                return None;
            },
        };
        let (removed_apps, j3b) = match p_removed_tail(&inp, j3) {
            Some(p) => p,
            None => {
                return None;
            },
        };
        let j4 = match p_lit(&inp, j3b, "],\"last_sync\":") {
            Some(j) => j,
            None => {
                return None;
            },
        };
        let (last_sync, j4b) = match p_opt_u64(&inp, j4) {
            Some(p) => p,
            None => {
                return None;
            },
        };
        let j5 = match p_lit(&inp, j4b, ",\"discovered_apps\":[") {
            Some(j) => j,
            None => {
                return None;
            },
        };
        let (discovered_apps, j5b) = match p_entries_tail(&inp, j5) {
            Some(p) => p,
            None => {
                return None;
            },
        };
        let j6 = match p_lit(&inp, j5b, "]}") {
            Some(j) => j,
            None => {
                return None;
            },
        };
        if j6 != inp.len() {
            return None;
        }
        Some(
            State { version, first_boot_completed, removed_apps, last_sync, discovered_apps },
        )
    }

    /// Load a state from the contents of the state file: an absent file
    /// yields the default state, and so does one that cannot be read back.
    pub fn load(contents: Option<&str>) -> (r: State)
        ensures
            contents is None ==> r@ == StateModel::init(),
            (contents matches Some(t) ==> r@ == (match sp_state(t@) {
                Some(m) => m,
                None => StateModel::init(),
            })),
    {
        match contents {
            None => State::default(),
            Some(t) => match State::from_json(t) {
                Some(st) => st,
                None => State::default(),
            },
        }
    }

    /// Render the state as its persisted document.
    pub fn save(&self) -> (r: String)
        ensures
            r@ == state_json(self@),
    {
        let mut out: Vec<char> = Vec::new();
        write_lit(&mut out, "{\"version\":");
        write_string(&mut out, self.version.as_str());
        write_lit(&mut out, ",\"first_boot_completed\":");
        if self.first_boot_completed {
            write_lit(&mut out, "true");
            proof {
                assert("true"@ =~= json_bool(true)) by {
                    reveal_strlit("true");
                }
            }
        } else {
            write_lit(&mut out, "false");
            proof {
                assert("false"@ =~= json_bool(false)) by {
                    reveal_strlit("false");
                }
            }
        }
        write_lit(&mut out, ",\"removed_apps\":[");
        write_removed_items(&mut out, &self.removed_apps, 0);
        write_lit(&mut out, "],\"last_sync\":");
        match self.last_sync {
            Some(n) => {
                write_u64(&mut out, n);
            },
            None => {
                write_lit(&mut out, "null");
                proof {
                    assert("null"@ =~= json_opt_u64(None::<u64>)) by {
                        reveal_strlit("null");
                    }
                }
            },
        }
        write_lit(&mut out, ",\"discovered_apps\":[");
        write_entry_items(&mut out, &self.discovered_apps, 0);
        write_lit(&mut out, "]}");
        proof {
            assert(removed_view(self.removed_apps@).skip(0) =~= self@.removed_apps);
            assert(entries_view(self.discovered_apps@).skip(0) =~= self@.discovered_apps);
            assert(out@ =~= state_json(self@));
        }
        string_from_chars(&out)
    }
}

} // verus!
