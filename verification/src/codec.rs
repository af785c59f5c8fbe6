//! The aggregated-state payload format: a JSON array of snapshot objects with
//! a fixed key order and canonical decimal numerals.
//!
//! [`spec_json_of_snapshots`] gives the exact text of an encoded window;
//! [`encode_snapshots`] produces it and [`decode_snapshots`] reads it back.
//! The decoder is pinned to the spec-level parser [`spec_decode`], and two
//! laws characterize the format completely: [`lemma_decode_of_encode`] (an
//! encoded window decodes to the snapshots that went in) and
//! [`lemma_encode_of_decode`] (whatever decodes is the encoding of its
//! result — only canonical encodings are accepted).

use vstd::prelude::*;
use vstd::arithmetic::div_mod::lemma_fundamental_div_mod;
use crate::protocol::StateSnapshot;

verus! {

/// The character for one decimal digit.
pub open spec fn spec_digit(d: int) -> char {
    if d == 0 {
        '0'
    } else if d == 1 {
        '1'
    } else if d == 2 {
        '2'
    } else if d == 3 {
        '3'
    } else if d == 4 {
        '4'
    } else if d == 5 {
        '5'
    } else if d == 6 {
        '6'
    } else if d == 7 {
        '7'
    } else if d == 8 {
        '8'
    } else {
        '9'
    }
}

/// The canonical decimal numeral of `n`: no sign, no leading zero, `"0"` for
/// zero.
pub open spec fn spec_dec(n: nat) -> Seq<char>
    decreases n,
{
    if n < 10 {
        seq![spec_digit(n as int)]
    } else {
        spec_dec(n / 10).push(spec_digit((n % 10) as int))
    }
}

/// The exact text of one encoded snapshot.
pub open spec fn spec_json_of_snapshot(s: StateSnapshot) -> Seq<char> {
    "{\"cpu_usage\":"@ + spec_dec(s.cpu_usage as nat) + ",\"mem_used\":"@ + spec_dec(
        s.mem_used as nat,
    ) + ",\"swap_used\":"@ + spec_dec(s.swap_used as nat) + ",\"disk_used\":"@ + spec_dec(
        s.disk_used as nat,
    ) + ",\"net_in_transfer\":"@ + spec_dec(s.net_in_transfer as nat) + ",\"net_out_transfer\":"@
        + spec_dec(s.net_out_transfer as nat) + ",\"net_in_speed\":"@ + spec_dec(
        s.net_in_speed as nat,
    ) + ",\"net_out_speed\":"@ + spec_dec(s.net_out_speed as nat) + ",\"load1\":"@ + spec_dec(
        s.load1 as nat,
    ) + ",\"load5\":"@ + spec_dec(s.load5 as nat) + ",\"load15\":"@ + spec_dec(s.load15 as nat)
        + "}"@
}

/// The comma-separated snapshot objects of an encoded window.
pub open spec fn spec_json_items(l: Seq<StateSnapshot>) -> Seq<char>
    decreases l.len(),
{
    if l.len() == 0 {
        Seq::empty()
    } else if l.len() == 1 {
        spec_json_of_snapshot(l[0])
    } else {
        spec_json_of_snapshot(l[0]) + ","@ + spec_json_items(l.drop_first())
    }
}

/// The exact text of an encoded window: the objects inside brackets.
pub open spec fn spec_json_of_snapshots(l: Seq<StateSnapshot>) -> Seq<char> {
    "["@ + spec_json_items(l) + "]"@
}

/// Extending an item list by one snapshot appends a comma (when anything
/// precedes it) and the snapshot's object.
pub proof fn lemma_json_items_push(l: Seq<StateSnapshot>, x: StateSnapshot)
    ensures
        spec_json_items(l.push(x)) == if l.len() == 0 {
            spec_json_of_snapshot(x)
        } else {
            spec_json_items(l) + ","@ + spec_json_of_snapshot(x)
        },
    decreases l.len(),
{
    if l.len() == 0 {
        assert(l.push(x) =~= seq![x]);
        assert(spec_json_items(l.push(x)) == spec_json_of_snapshot(x));
    } else {
        assert(l.push(x).drop_first() =~= l.drop_first().push(x));
        lemma_json_items_push(l.drop_first(), x);
        if l.len() == 1 {
            assert(spec_json_items(l.push(x)) =~= spec_json_items(l) + ","@
                + spec_json_of_snapshot(x));
        } else {
            assert(spec_json_items(l.push(x)) =~= spec_json_items(l) + ","@
                + spec_json_of_snapshot(x));
        }
    }
}

/// Appends the decimal digit `d` to `out`.
fn append_digit(out: &mut String, d: u64)
    requires
        d < 10,
    ensures
        final(out)@ == old(out)@ + seq![spec_digit(d as int)],
{
    if d == 0 {
        out.append("0");
        proof {
            reveal_strlit("0");
            assert(final(out)@ =~= old(out)@ + seq![spec_digit(d as int)]);
        }
    } else if d == 1 {
        out.append("1");
        proof {
            reveal_strlit("1");
            assert(final(out)@ =~= old(out)@ + seq![spec_digit(d as int)]);
        }
    } else if d == 2 {
        out.append("2");
        proof {
            reveal_strlit("2");
            assert(final(out)@ =~= old(out)@ + seq![spec_digit(d as int)]);
        }
    } else if d == 3 {
        out.append("3");
        proof {
            reveal_strlit("3");
            assert(final(out)@ =~= old(out)@ + seq![spec_digit(d as int)]);
        }
    } else if d == 4 {
        out.append("4");
        proof {
            reveal_strlit("4");
            assert(final(out)@ =~= old(out)@ + seq![spec_digit(d as int)]);
        }
    } else if d == 5 {
        out.append("5");
        proof {
            reveal_strlit("5");
            assert(final(out)@ =~= old(out)@ + seq![spec_digit(d as int)]);
        }
    } else if d == 6 {
        out.append("6");
        proof {
            reveal_strlit("6");
            assert(final(out)@ =~= old(out)@ + seq![spec_digit(d as int)]);
        }
    } else if d == 7 {
        out.append("7");
        proof {
            reveal_strlit("7");
            assert(final(out)@ =~= old(out)@ + seq![spec_digit(d as int)]);
        }
    } else if d == 8 {
        out.append("8");
        proof {
            reveal_strlit("8");
            assert(final(out)@ =~= old(out)@ + seq![spec_digit(d as int)]);
        }
    } else {
        out.append("9");
        proof {
            reveal_strlit("9");
            assert(final(out)@ =~= old(out)@ + seq![spec_digit(d as int)]);
        }
    }
}

/// Appends the canonical decimal numeral of `n` to `out`.
pub fn encode_u64(out: &mut String, n: u64)
    ensures
        final(out)@ == old(out)@ + spec_dec(n as nat),
    decreases n,
{
    if n < 10 {
        append_digit(out, n);
    } else {
        encode_u64(out, n / 10);
        append_digit(out, n % 10);
        proof {
            assert(final(out)@ =~= old(out)@ + spec_dec(n as nat));
        }
    }
}

/// Appends one snapshot's object to `out`.
#[verifier::rlimit(60)]
fn encode_snapshot(out: &mut String, s: &StateSnapshot)
    ensures
        final(out)@ == old(out)@ + spec_json_of_snapshot(*s),
{
    out.append("{\"cpu_usage\":");
    encode_u64(out, s.cpu_usage);
    out.append(",\"mem_used\":");
    encode_u64(out, s.mem_used);
    out.append(",\"swap_used\":");
    encode_u64(out, s.swap_used);
    out.append(",\"disk_used\":");
    encode_u64(out, s.disk_used);
    out.append(",\"net_in_transfer\":");
    encode_u64(out, s.net_in_transfer);
    out.append(",\"net_out_transfer\":");
    encode_u64(out, s.net_out_transfer);
    out.append(",\"net_in_speed\":");
    encode_u64(out, s.net_in_speed);
    out.append(",\"net_out_speed\":");
    encode_u64(out, s.net_out_speed);
    out.append(",\"load1\":");
    encode_u64(out, s.load1);
    out.append(",\"load5\":");
    encode_u64(out, s.load5);
    out.append(",\"load15\":");
    encode_u64(out, s.load15);
    out.append("}");
    proof {
        assert(final(out)@ =~= old(out)@ + spec_json_of_snapshot(*s));
    }
}

/// Encodes a window's snapshots as the canonical JSON array text.
pub fn encode_snapshots(l: &Vec<StateSnapshot>) -> (r: String)
    ensures
        r@ == spec_json_of_snapshots(l@),
{
    let mut out = String::from_str("[");
    let mut i: usize = 0;
    while i < l.len()
        invariant
            0 <= i <= l.len(),
            out@ == "["@ + spec_json_items(l@.subrange(0, i as int)),
        decreases l.len() - i,
    {
        if i > 0 {
            out.append(",");
        }
        encode_snapshot(&mut out, &l[i]);
        proof {
            let prefix = l@.subrange(0, i as int);
            assert(l@.subrange(0, i as int + 1) =~= prefix.push(l@[i as int]));
            lemma_json_items_push(prefix, l@[i as int]);
            assert(out@ =~= "["@ + spec_json_items(l@.subrange(0, i as int + 1)));
        }
        i = i + 1;
    }
    out.append("]");
    proof {
        assert(l@.subrange(0, l@.len() as int) =~= l@);
        assert(out@ =~= spec_json_of_snapshots(l@));
    }
    out
}

/// Whether `c` is a decimal digit.
pub open spec fn spec_is_digit(c: char) -> bool {
    48 <= c as u32 <= 57
}

/// The numeric value of a digit character.
pub open spec fn spec_digit_val(c: char) -> int {
    c as u32 - 48
}

/// The parallel key and value lists of one snapshot object: each key literal
/// carries the separator and quoting that precede its value.
pub open spec fn spec_field_keys() -> Seq<Seq<char>> {
    seq![
        "{\"cpu_usage\":"@,
        ",\"mem_used\":"@,
        ",\"swap_used\":"@,
        ",\"disk_used\":"@,
        ",\"net_in_transfer\":"@,
        ",\"net_out_transfer\":"@,
        ",\"net_in_speed\":"@,
        ",\"net_out_speed\":"@,
        ",\"load1\":"@,
        ",\"load5\":"@,
        ",\"load15\":"@,
    ]
}

/// A snapshot's field values, in the key order of [`spec_field_keys`].
pub open spec fn spec_values(s: StateSnapshot) -> Seq<u64> {
    seq![
        s.cpu_usage,
        s.mem_used,
        s.swap_used,
        s.disk_used,
        s.net_in_transfer,
        s.net_out_transfer,
        s.net_in_speed,
        s.net_out_speed,
        s.load1,
        s.load5,
        s.load15,
    ]
}

/// The snapshot whose field values, in key order, are `vals`.
pub open spec fn snap_of_values(vals: Seq<u64>) -> StateSnapshot
    recommends
        vals.len() == 11,
{
    StateSnapshot {
        cpu_usage: vals[0],
        mem_used: vals[1],
        swap_used: vals[2],
        disk_used: vals[3],
        net_in_transfer: vals[4],
        net_out_transfer: vals[5],
        net_in_speed: vals[6],
        net_out_speed: vals[7],
        load1: vals[8],
        load5: vals[9],
        load15: vals[10],
    }
}

/// The text of a key-value list: each key literal followed by its value's
/// numeral.
pub open spec fn spec_json_fields(keys: Seq<Seq<char>>, vals: Seq<u64>) -> Seq<char>
    decreases keys.len(),
{
    if keys.len() == 0 || vals.len() == 0 {
        Seq::empty()
    } else {
        keys[0] + spec_dec(vals[0] as nat) + spec_json_fields(keys.drop_first(), vals.drop_first())
    }
}

/// Consuming a literal: the next `lit.len()` characters are exactly `lit`.
pub open spec fn spec_expect(s: Seq<char>, i: int, lit: Seq<char>) -> Option<int> {
    if 0 <= i && i + lit.len() <= s.len() && s.subrange(i, i + lit.len()) == lit {
        Some(i + lit.len())
    } else {
        None
    }
}

/// Consuming a digit run from position `i` with accumulator `acc`: stops at
/// the first non-digit or the end, and fails if the value outgrows a `u64`.
pub open spec fn spec_parse_num_loop(s: Seq<char>, i: int, acc: u64) -> Option<(u64, int)>
    decreases s.len() - i,
{
    if i < 0 || i >= s.len() || !spec_is_digit(s[i]) {
        Some((acc, i))
    } else {
        let d = spec_digit_val(s[i]);
        if acc * 10 + d <= u64::MAX {
            spec_parse_num_loop(s, i + 1, (acc * 10 + d) as u64)
        } else {
            None
        }
    }
}

/// Consuming one numeral: at least one digit, then the maximal digit run.
/// Only canonical numerals pass: no leading zero, no value beyond `u64`.
pub open spec fn spec_parse_number(s: Seq<char>, i: int) -> Option<(u64, int)> {
    if 0 <= i < s.len() && spec_is_digit(s[i]) {
        if s[i] == '0' && i + 1 < s.len() && spec_is_digit(s[i + 1]) {
            None
        } else {
            spec_parse_num_loop(s, i, 0)
        }
    } else {
        None
    }
}

/// Consuming one key-value list: each key literal, then its numeral.
pub open spec fn spec_parse_fields(s: Seq<char>, i: int, keys: Seq<Seq<char>>) -> Option<
    (Seq<u64>, int),
>
    decreases keys.len(),
{
    if keys.len() == 0 {
        Some((Seq::empty(), i))
    } else {
        match spec_expect(s, i, keys[0]) {
            None => None,
            Some(j) => match spec_parse_number(s, j) {
                None => None,
                Some((v, k)) => match spec_parse_fields(s, k, keys.drop_first()) {
                    None => None,
                    Some((vs, m)) => Some((seq![v] + vs, m)),
                },
            },
        }
    }
}

/// Consuming one snapshot object: the eleven fields, then the closing brace.
pub open spec fn spec_parse_snapshot(s: Seq<char>, i: int) -> Option<(StateSnapshot, int)> {
    match spec_parse_fields(s, i, spec_field_keys()) {
        None => None,
        Some((vals, j)) => {
            if 0 <= j < s.len() && s[j] == '}' {
                Some((snap_of_values(vals), j + 1))
            } else {
                None
            }
        },
    }
}

/// Consuming one or more comma-separated snapshot objects. The fuel bounds
/// the number of objects; any value at least the remaining text length is
/// enough, since an object is never empty.
pub open spec fn spec_parse_items(s: Seq<char>, i: int, fuel: nat) -> Option<
    (Seq<StateSnapshot>, int),
>
    decreases fuel,
{
    if fuel == 0 {
        None
    } else {
        match spec_parse_snapshot(s, i) {
            None => None,
            Some((snap, j)) => {
                if 0 <= j < s.len() && s[j] == ',' {
                    match spec_parse_items(s, j + 1, (fuel - 1) as nat) {
                        None => None,
                        Some((rest, m)) => Some((seq![snap] + rest, m)),
                    }
                } else {
                    Some((seq![snap], j))
                }
            },
        }
    }
}

/// The unique snapshot list an encoded window text stands for, or `None` for
/// text this format never produces.
pub open spec fn spec_decode(s: Seq<char>) -> Option<Seq<StateSnapshot>> {
    if s.len() < 2 || s[0] != '[' || s.last() != ']' {
        None
    } else if s.len() == 2 {
        Some(Seq::empty())
    } else {
        match spec_parse_items(s, 1, s.len() as nat) {
            None => None,
            Some((items, j)) => {
                if j == s.len() - 1 {
                    Some(items)
                } else {
                    None
                }
            },
        }
    }
}

/// Consumes `lit` at position `i`, reporting the position after it.
fn expect_lit(s: &str, i: usize, lit: &str) -> (r: Option<usize>)
    requires
        i <= s@.len(),
    ensures
        match r {
            Some(j) => spec_expect(s@, i as int, lit@) == Some(j as int) && i <= j <= s@.len(),
            None => spec_expect(s@, i as int, lit@) is None,
        },
{
    let ll = lit.unicode_len();
    let sl = s.unicode_len();
    if ll > sl - i {
        return None;
    }
    let mut t: usize = 0;
    while t < ll
        invariant
            0 <= t <= ll,
            ll == lit@.len(),
            sl == s@.len(),
            i + ll <= s@.len(),
            forall|u: int| 0 <= u < t ==> s@[i + u] == lit@[u],
        decreases ll - t,
    {
        if s.get_char(i + t) != lit.get_char(t) {
            proof {
                let bad = t as int;
                assert(s@.subrange(i as int, i as int + lit@.len() as int)[bad] != lit@[bad]);
            }
            return None;
        }
        t = t + 1;
    }
    proof {
        assert(s@.subrange(i as int, i as int + lit@.len() as int) =~= lit@);
    }
    Some(i + ll)
}

/// Consumes one numeral at position `i`.
fn parse_number(s: &str, i: usize) -> (r: Option<(u64, usize)>)
    requires
        i <= s@.len(),
    ensures
        match r {
            Some(p) => spec_parse_number(s@, i as int) == Some((p.0, p.1 as int)) && i <= p.1
                <= s@.len(),
            None => spec_parse_number(s@, i as int) is None,
        },
{
    let n = s.unicode_len();
    if i >= n {
        return None;
    }
    let c0 = s.get_char(i);
    let u0 = c0 as u32;
    if !(48 <= u0 && u0 <= 57) {
        return None;
    }
    if c0 == '0' && i + 1 < n {
        let c1 = s.get_char(i + 1);
        let u1 = c1 as u32;
        if 48 <= u1 && u1 <= 57 {
            return None;
        }
    }
    let mut acc: u64 = 0;
    let mut k: usize = i;
    loop
        invariant
            n == s@.len(),
            i <= k <= n,
            0 <= i < n,
            spec_is_digit(s@[i as int]),
            spec_parse_number(s@, i as int) == spec_parse_num_loop(s@, i as int, 0),
            spec_parse_num_loop(s@, i as int, 0) == spec_parse_num_loop(s@, k as int, acc),
        decreases n - k,
    {
        if k >= n {
            return Some((acc, k));
        }
        let c = s.get_char(k);
        let u = c as u32;
        if !(48 <= u && u <= 57) {
            return Some((acc, k));
        }
        let d = (u - 48) as u64;
        match acc.checked_mul(10) {
            None => {
                return None;
            },
            Some(t) => match t.checked_add(d) {
                None => {
                    return None;
                },
                Some(v) => {
                    acc = v;
                    k = k + 1;
                },
            },
        }
    }
}

/// Consumes one snapshot object at position `i`.
fn parse_snapshot(s: &str, i: usize) -> (r: Option<(StateSnapshot, usize)>)
    requires
        i <= s@.len(),
    ensures
        match r {
            Some(p) => spec_parse_snapshot(s@, i as int) == Some((p.0, p.1 as int)) && i <= p.1
                <= s@.len(),
            None => spec_parse_snapshot(s@, i as int) is None,
        },
{
    let keys: Vec<&str> = vec![
        "{\"cpu_usage\":",
        ",\"mem_used\":",
        ",\"swap_used\":",
        ",\"disk_used\":",
        ",\"net_in_transfer\":",
        ",\"net_out_transfer\":",
        ",\"net_in_speed\":",
        ",\"net_out_speed\":",
        ",\"load1\":",
        ",\"load5\":",
        ",\"load15\":",
    ];
    proof {
        assert forall|t: int| 0 <= t < 11 implies (#[trigger] keys@[t])@ == spec_field_keys()[t] by {
            if t == 0 {
                assert(keys@[0]@ == spec_field_keys()[0]);
            } else if t == 1 {
                assert(keys@[1]@ == spec_field_keys()[1]);
            } else if t == 2 {
                assert(keys@[2]@ == spec_field_keys()[2]);
            } else if t == 3 {
                assert(keys@[3]@ == spec_field_keys()[3]);
            } else if t == 4 {
                assert(keys@[4]@ == spec_field_keys()[4]);
            } else if t == 5 {
                assert(keys@[5]@ == spec_field_keys()[5]);
            } else if t == 6 {
                assert(keys@[6]@ == spec_field_keys()[6]);
            } else if t == 7 {
                assert(keys@[7]@ == spec_field_keys()[7]);
            } else if t == 8 {
                assert(keys@[8]@ == spec_field_keys()[8]);
            } else if t == 9 {
                assert(keys@[9]@ == spec_field_keys()[9]);
            } else {
                assert(keys@[10]@ == spec_field_keys()[10]);
            }
        }
    }
    let mut vals: Vec<u64> = Vec::new();
    let mut pos: usize = i;
    let mut k: usize = 0;
    proof {
        assert(spec_field_keys().skip(0) =~= spec_field_keys());
        assert(spec_parse_fields(s@, i as int, spec_field_keys()) == (match spec_parse_fields(
            s@,
            pos as int,
            spec_field_keys().skip(k as int),
        ) {
            None => None::<(Seq<u64>, int)>,
            Some((vs, m)) => Some((vals@ + vs, m)),
        }));
    }
    while k < 11
        invariant
            0 <= k <= 11,
            keys@.len() == 11,
            vals@.len() == k,
            i <= pos <= s@.len(),
            forall|t: int| 0 <= t < 11 ==> (#[trigger] keys@[t])@ == spec_field_keys()[t],
            spec_field_keys().len() == 11,
            spec_parse_fields(s@, i as int, spec_field_keys()) == (match spec_parse_fields(
                s@,
                pos as int,
                spec_field_keys().skip(k as int),
            ) {
                None => None::<(Seq<u64>, int)>,
                Some((vs, m)) => Some((vals@ + vs, m)),
            }),
        decreases 11 - k,
    {
        proof {
            assert(spec_field_keys().skip(k as int).len() == 11 - k);
            assert(spec_field_keys().skip(k as int)[0] == spec_field_keys()[k as int]);
            assert(spec_field_keys().skip(k as int).drop_first() =~= spec_field_keys().skip(
                k as int + 1,
            ));
        }
        match expect_lit(s, pos, keys[k]) {
            None => {
                return None;
            },
            Some(j) => {
                match parse_number(s, j) {
                    None => {
                        return None;
                    },
                    Some(p) => {
                        let ghost vals_old = vals@;
                        vals.push(p.0);
                        pos = p.1;
                        proof {
                            assert(vals@ =~= vals_old.push(p.0));
                            assert forall|vs: Seq<u64>|
                                true implies vals_old + (seq![p.0] + vs) =~= vals@ + vs by {}
                        }
                        k = k + 1;
                    },
                }
            },
        }
    }
    proof {
        assert(spec_field_keys().skip(11) =~= Seq::<Seq<char>>::empty());
        assert(spec_parse_fields(s@, pos as int, Seq::<Seq<char>>::empty()) == Some(
            (Seq::<u64>::empty(), pos as int),
        ));
        assert(vals@ + Seq::<u64>::empty() =~= vals@);
        assert(spec_parse_fields(s@, i as int, spec_field_keys()) == Some((vals@, pos as int)));
    }
    let n = s.unicode_len();
    if pos < n && s.get_char(pos) == '}' {
        let snap = StateSnapshot {
            cpu_usage: vals[0],
            mem_used: vals[1],
            swap_used: vals[2],
            disk_used: vals[3],
            net_in_transfer: vals[4],
            net_out_transfer: vals[5],
            net_in_speed: vals[6],
            net_out_speed: vals[7],
            load1: vals[8],
            load5: vals[9],
            load15: vals[10],
        };
        proof {
            assert(snap == snap_of_values(vals@));
        }
        Some((snap, pos + 1))
    } else {
        None
    }
}

/// Decodes an encoded window back into its snapshot list. The result is
/// pinned by [`spec_decode`], which accepts exactly the canonical encodings:
/// [`lemma_decode_of_encode`] shows every encoded window decodes to the
/// snapshots that produced it, and [`lemma_encode_of_decode`] shows nothing
/// else is ever accepted.
pub fn decode_snapshots(s: &str) -> (r: Option<Vec<StateSnapshot>>)
    ensures
        match r {
            Some(v) => spec_decode(s@) == Some(v@),
            None => spec_decode(s@) is None,
        },
{
    let n = s.unicode_len();
    if n < 2 {
        return None;
    }
    if s.get_char(0) != '[' {
        return None;
    }
    if s.get_char(n - 1) != ']' {
        return None;
    }
    if n == 2 {
        let empty: Vec<StateSnapshot> = Vec::new();
        proof {
            assert(empty@ =~= Seq::<StateSnapshot>::empty());
        }
        return Some(empty);
    }
    let mut out: Vec<StateSnapshot> = Vec::new();
    let mut pos: usize = 1;
    let mut fuel: usize = n;
    proof {
        assert(spec_parse_items(s@, 1, n as nat) == (match spec_parse_items(
            s@,
            pos as int,
            fuel as nat,
        ) {
            None => None::<(Seq<StateSnapshot>, int)>,
            Some((rest, m)) => Some((out@ + rest, m)),
        }));
    }
    loop
        invariant
            n == s@.len(),
            n >= 3,
            s@[0] == '[',
            s@.last() == ']',
            1 <= pos <= n,
            spec_parse_items(s@, 1, n as nat) == (match spec_parse_items(
                s@,
                pos as int,
                fuel as nat,
            ) {
                None => None::<(Seq<StateSnapshot>, int)>,
                Some((rest, m)) => Some((out@ + rest, m)),
            }),
        decreases fuel,
    {
        if fuel == 0 {
            return None;
        }
        match parse_snapshot(s, pos) {
            None => {
                return None;
            },
            Some(p) => {
                let ghost out_old = out@;
                out.push(p.0);
                if p.1 < n && s.get_char(p.1) == ',' {
                    proof {
                        assert forall|rest: Seq<StateSnapshot>|
                            true implies out_old + (seq![p.0] + rest) =~= out@ + rest by {}
                    }
                    pos = p.1 + 1;
                    fuel = fuel - 1;
                } else {
                    proof {
                        assert(out_old + seq![p.0] =~= out@);
                        assert(spec_parse_items(s@, 1, n as nat) == Some((out@, p.1 as int)));
                    }
                    if p.1 == n - 1 {
                        return Some(out);
                    } else {
                        return None;
                    }
                }
            },
        }
    }
}

/// Ten to the `k`.
pub open spec fn spec_pow10(k: nat) -> int
    decreases k,
{
    if k == 0 {
        1
    } else {
        10 * spec_pow10((k - 1) as nat)
    }
}

/// The value of a digit string, most significant digit first.
pub open spec fn spec_val(ds: Seq<char>) -> int
    decreases ds.len(),
{
    if ds.len() == 0 {
        0
    } else {
        spec_val(ds.drop_last()) * 10 + spec_digit_val(ds.last())
    }
}

proof fn lemma_pow10_pos(k: nat)
    ensures
        spec_pow10(k) >= 1,
    decreases k,
{
    if k > 0 {
        lemma_pow10_pos((k - 1) as nat);
    }
}

/// Each digit character carries its value.
proof fn lemma_digit_char_val(d: int)
    requires
        0 <= d < 10,
    ensures
        spec_is_digit(spec_digit(d)),
        spec_digit_val(spec_digit(d)) == d,
{
}

/// A numeral consists of digits and reads back as its number.
proof fn lemma_val_dec(n: nat)
    ensures
        spec_dec(n).len() >= 1,
        forall|t: int| 0 <= t < spec_dec(n).len() ==> spec_is_digit(#[trigger] spec_dec(n)[t]),
        spec_val(spec_dec(n)) == n,
    decreases n,
{
    if n < 10 {
        lemma_digit_char_val(n as int);
        assert(spec_dec(n).len() == 1);
        assert(spec_dec(n).last() == spec_digit(n as int));
        assert(spec_dec(n).drop_last() =~= Seq::<char>::empty());
        assert(spec_val(spec_dec(n).drop_last()) == 0);
        assert(spec_val(spec_dec(n)) == spec_digit_val(spec_digit(n as int)));
    } else {
        lemma_val_dec(n / 10);
        lemma_digit_char_val((n % 10) as int);
        assert(spec_dec(n) == spec_dec(n / 10).push(spec_digit((n % 10) as int)));
        assert(spec_dec(n).last() == spec_digit((n % 10) as int));
        assert(spec_dec(n).drop_last() =~= spec_dec(n / 10));
        assert(spec_val(spec_dec(n)) == spec_val(spec_dec(n).drop_last()) * 10 + spec_digit_val(
            spec_dec(n).last(),
        ));
        assert(spec_val(spec_dec(n).drop_last()) == n / 10);
        lemma_fundamental_div_mod(n as int, 10);
        assert(n == 10 * (n as int / 10) + n as int % 10);
        assert forall|t: int| 0 <= t < spec_dec(n).len() implies spec_is_digit(
            #[trigger] spec_dec(n)[t],
        ) by {
            if t < spec_dec(n).len() - 1 {
                assert(spec_dec(n)[t] == spec_dec(n / 10)[t]);
            }
        }
    }
}

/// Digit strings have nonnegative values.
proof fn lemma_val_nonneg(ds: Seq<char>)
    requires
        forall|t: int| 0 <= t < ds.len() ==> spec_is_digit(#[trigger] ds[t]),
    ensures
        spec_val(ds) >= 0,
    decreases ds.len(),
{
    if ds.len() > 0 {
        assert(forall|t: int|
            0 <= t < ds.drop_last().len() ==> spec_is_digit(#[trigger] ds.drop_last()[t]));
        lemma_val_nonneg(ds.drop_last());
    }
}

/// A digit string's value, read from the front: the first digit weighs ten to
/// the remaining length.
proof fn lemma_val_front(ds: Seq<char>)
    requires
        ds.len() >= 1,
    ensures
        spec_val(ds) == spec_digit_val(ds[0]) * spec_pow10((ds.len() - 1) as nat) + spec_val(
            ds.drop_first(),
        ),
    decreases ds.len(),
{
    if ds.len() == 1 {
        assert(ds.drop_last() =~= Seq::<char>::empty());
        assert(ds.drop_first() =~= Seq::<char>::empty());
        assert(spec_val(ds.drop_last()) == 0);
        assert(spec_val(ds.drop_first()) == 0);
        assert(ds.last() == ds[0]);
        assert(spec_val(ds) == spec_digit_val(ds[0]));
        assert(spec_pow10((ds.len() - 1) as nat) == 1);
    } else {
        let dl = ds.drop_last();
        let df = ds.drop_first();
        lemma_val_front(dl);
        assert(dl.drop_first() =~= df.drop_last());
        assert(dl[0] == ds[0]);
        assert(df.last() == ds.last());
        let p = spec_pow10((ds.len() - 2) as nat);
        assert(spec_val(ds) == (spec_digit_val(ds[0]) * p + spec_val(df.drop_last())) * 10
            + spec_digit_val(ds.last()));
        assert((spec_digit_val(ds[0]) * p + spec_val(df.drop_last())) * 10 == spec_digit_val(
            ds[0],
        ) * (10 * p) + spec_val(df.drop_last()) * 10) by (nonlinear_arith);
        assert(spec_pow10((ds.len() - 1) as nat) == 10 * p);
        assert(spec_val(df) == spec_val(df.drop_last()) * 10 + spec_digit_val(df.last()));
        assert(spec_val(ds) == spec_digit_val(ds[0]) * (10 * p) + (spec_val(df.drop_last()) * 10
            + spec_digit_val(df.last())));
    }
}

/// The digit-run parser consumes exactly a digit region that ends at a
/// non-digit boundary, accumulating its value.
proof fn lemma_num_loop_region(s: Seq<char>, i: int, j: int, acc: u64)
    requires
        0 <= i <= j <= s.len(),
        forall|t: int| i <= t < j ==> spec_is_digit(#[trigger] s[t]),
        j == s.len() || !spec_is_digit(s[j]),
        acc * spec_pow10((j - i) as nat) + spec_val(s.subrange(i, j)) <= u64::MAX,
    ensures
        spec_parse_num_loop(s, i, acc) == Some(
            ((acc * spec_pow10((j - i) as nat) + spec_val(s.subrange(i, j))) as u64, j),
        ),
    decreases j - i,
{
    let region = s.subrange(i, j);
    assert(forall|t: int| 0 <= t < region.len() ==> spec_is_digit(#[trigger] region[t]));
    if i == j {
        assert(region.len() == 0);
        assert(spec_pow10(0) == 1);
    } else {
        let d = spec_digit_val(s[i]);
        let ln = (j - i) as nat;
        let p1 = spec_pow10((ln - 1) as nat);
        lemma_val_front(region);
        assert(region[0] == s[i]);
        assert(region.drop_first() =~= s.subrange(i + 1, j));
        let rest = s.subrange(i + 1, j);
        assert(spec_val(region) == d * p1 + spec_val(rest));
        assert(forall|t: int| 0 <= t < rest.len() ==> spec_is_digit(#[trigger] rest[t]));
        lemma_val_nonneg(rest);
        lemma_pow10_pos((ln - 1) as nat);
        assert(spec_pow10(ln) == 10 * p1);
        let total = acc * spec_pow10(ln) + spec_val(region);
        assert(total == (acc * 10 + d) * p1 + spec_val(rest)) by (nonlinear_arith)
            requires
                spec_pow10(ln) == 10 * p1,
                spec_val(region) == d * p1 + spec_val(rest),
                total == acc * spec_pow10(ln) + spec_val(region),
        ;
        assert(acc * 10 + d <= total) by (nonlinear_arith)
            requires
                total == (acc * 10 + d) * p1 + spec_val(rest),
                p1 >= 1,
                spec_val(rest) >= 0,
                acc >= 0,
                d >= 0,
        ;
        lemma_num_loop_region(s, i + 1, j, (acc * 10 + d) as u64);
    }
}

/// A canonical numeral of a positive number never starts with a zero.
proof fn lemma_dec_no_leading_zero(n: nat)
    requires
        n >= 1,
    ensures
        spec_dec(n)[0] != '0',
    decreases n,
{
    if n >= 10 {
        lemma_dec_no_leading_zero(n / 10);
        assert(spec_dec(n)[0] == spec_dec(n / 10)[0]);
    }
}

/// Parsing at a numeral that ends at a non-digit boundary yields its number.
proof fn lemma_parse_number_of_dec(s: Seq<char>, i: int, n: u64)
    requires
        0 <= i,
        i + spec_dec(n as nat).len() <= s.len(),
        s.subrange(i, i + spec_dec(n as nat).len()) == spec_dec(n as nat),
        i + spec_dec(n as nat).len() == s.len() || !spec_is_digit(s[i + spec_dec(n as nat).len()]),
    ensures
        spec_parse_number(s, i) == Some((n, i + spec_dec(n as nat).len())),
{
    let ds = spec_dec(n as nat);
    let j = i + ds.len();
    lemma_val_dec(n as nat);
    assert forall|t: int| i <= t < j implies spec_is_digit(#[trigger] s[t]) by {
        assert(s[t] == s.subrange(i, j)[t - i]);
        assert(spec_is_digit(ds[t - i]));
    }
    assert(spec_is_digit(s[i]));
    if n == 0 {
        assert(ds.len() == 1);
        assert(j == i + 1);
        assert(j == s.len() || !spec_is_digit(s[j]));
    } else {
        lemma_dec_no_leading_zero(n as nat);
        assert(s[i] == ds[0]);
        assert(s[i] != '0');
    }
    assert(spec_pow10(0) == 1);
    lemma_num_loop_region(s, i, j, 0);
    assert(spec_val(s.subrange(i, j)) == n);
}

/// Parsing at a key-value list region yields exactly its values.
proof fn lemma_parse_fields_of(s: Seq<char>, i: int, keys: Seq<Seq<char>>, vals: Seq<u64>)
    requires
        keys.len() == vals.len(),
        0 <= i,
        i + spec_json_fields(keys, vals).len() <= s.len(),
        s.subrange(i, i + spec_json_fields(keys, vals).len()) == spec_json_fields(keys, vals),
        i + spec_json_fields(keys, vals).len() == s.len() || !spec_is_digit(
            s[i + spec_json_fields(keys, vals).len()],
        ),
        forall|k: int|
            0 <= k < keys.len() ==> (#[trigger] keys[k]).len() >= 1 && !spec_is_digit(keys[k][0]),
    ensures
        spec_parse_fields(s, i, keys) == Some((vals, i + spec_json_fields(keys, vals).len())),
    decreases keys.len(),
{
    let jf = spec_json_fields(keys, vals);
    if keys.len() == 0 {
        assert(vals =~= Seq::<u64>::empty());
        assert(jf.len() == 0);
    } else {
        let k0 = keys[0];
        let ds = spec_dec(vals[0] as nat);
        let tail = spec_json_fields(keys.drop_first(), vals.drop_first());
        assert(jf == k0 + ds + tail);
        lemma_val_dec(vals[0] as nat);
        // the key literal sits first
        assert forall|t: int| 0 <= t < jf.len() implies s[i + t] == jf[t] by {
            assert(s.subrange(i, i + jf.len())[t] == s[i + t]);
        }
        assert(s.subrange(i, i + k0.len() as int) =~= k0);
        assert(spec_expect(s, i, k0) == Some(i + k0.len()));
        let j = i + k0.len() as int;
        // the numeral follows
        let m = j + ds.len() as int;
        assert forall|u: int| 0 <= u < ds.len() implies s.subrange(j, m)[u] == ds[u] by {
            let x = k0.len() as int + u;
            assert(s.subrange(i, i + jf.len())[x] == jf[x]);
            assert(jf[x] == (k0 + ds + tail)[x]);
            assert((k0 + ds + tail)[x] == ds[u]);
            assert(s.subrange(i, i + jf.len())[x] == s[i + x]);
            assert(s.subrange(j, m)[u] == s[j + u]);
        }
        assert(s.subrange(j, m) =~= ds);
        if keys.len() == 1 {
            assert(tail.len() == 0);
            assert(m == i + jf.len());
            lemma_parse_number_of_dec(s, j, vals[0]);
        } else {
            assert(keys.drop_first()[0] == keys[1]);
            assert(tail.len() >= keys[1].len()) by {
                lemma_json_fields_len_first(keys.drop_first(), vals.drop_first());
            }
            assert(tail[0] == keys[1][0]);
            assert(s[m] == jf[m - i]);
            assert(jf[m - i] == tail[0]);
            assert(!spec_is_digit(s[m]));
            lemma_parse_number_of_dec(s, j, vals[0]);
        }
        // the remaining fields follow
        assert forall|u: int| 0 <= u < tail.len() implies s.subrange(m, m + tail.len() as int)[u]
            == tail[u] by {
            let x = k0.len() as int + ds.len() as int + u;
            assert(s.subrange(i, i + jf.len())[x] == jf[x]);
            assert(jf[x] == (k0 + ds + tail)[x]);
            assert((k0 + ds + tail)[x] == tail[u]);
            assert(s.subrange(i, i + jf.len())[x] == s[i + x]);
            assert(s.subrange(m, m + tail.len() as int)[u] == s[m + u]);
        }
        assert(s.subrange(m, m + tail.len() as int) =~= tail);
        assert(forall|k: int|
            0 <= k < keys.drop_first().len() ==> (#[trigger] keys.drop_first()[k]).len() >= 1
                && !spec_is_digit(keys.drop_first()[k][0]));
        lemma_parse_fields_of(s, m, keys.drop_first(), vals.drop_first());
        assert(seq![vals[0]] + vals.drop_first() =~= vals);
    }
}

/// A nonempty key-value list's text starts with its first key.
proof fn lemma_json_fields_len_first(keys: Seq<Seq<char>>, vals: Seq<u64>)
    requires
        keys.len() >= 1,
        vals.len() >= 1,
    ensures
        spec_json_fields(keys, vals).len() >= keys[0].len(),
        forall|t: int|
            0 <= t < keys[0].len() ==> #[trigger] spec_json_fields(keys, vals)[t] == keys[0][t],
{
}


/// Splitting a region known to hold `a + b` yields the two halves.
proof fn lemma_region_split(s: Seq<char>, i: int, a: Seq<char>, b: Seq<char>)
    requires
        0 <= i,
        i + a.len() + b.len() <= s.len(),
        s.subrange(i, i + a.len() + b.len()) == a + b,
    ensures
        s.subrange(i, i + a.len()) == a,
        s.subrange(i + a.len(), i + a.len() + b.len()) == b,
{
    let whole = i + a.len() + b.len();
    assert forall|u: int| 0 <= u < a.len() implies s.subrange(i, i + a.len() as int)[u] == a[u] by {
        assert(s.subrange(i, whole)[u] == (a + b)[u]);
        assert(s.subrange(i, whole)[u] == s[i + u]);
        assert(s.subrange(i, i + a.len() as int)[u] == s[i + u]);
    }
    assert(s.subrange(i, i + a.len() as int) =~= a);
    assert forall|u: int| 0 <= u < b.len() implies s.subrange(i + a.len(), whole)[u] == b[u] by {
        let x = a.len() as int + u;
        assert(s.subrange(i, whole)[x] == (a + b)[x]);
        assert(s.subrange(i, whole)[x] == s[i + x]);
        assert(s.subrange(i + a.len(), whole)[u] == s[i + a.len() + u]);
    }
    assert(s.subrange(i + a.len(), whole) =~= b);
}

/// Every key literal of the snapshot object is nonempty and starts with a
/// non-digit.
proof fn lemma_field_keys_wf()
    ensures
        spec_field_keys().len() == 11,
        forall|k: int|
            0 <= k < 11 ==> (#[trigger] spec_field_keys()[k]).len() >= 1 && !spec_is_digit(
                spec_field_keys()[k][0],
            ),
{
    reveal_strlit("{\"cpu_usage\":");
    reveal_strlit(",\"mem_used\":");
    reveal_strlit(",\"swap_used\":");
    reveal_strlit(",\"disk_used\":");
    reveal_strlit(",\"net_in_transfer\":");
    reveal_strlit(",\"net_out_transfer\":");
    reveal_strlit(",\"net_in_speed\":");
    reveal_strlit(",\"net_out_speed\":");
    reveal_strlit(",\"load1\":");
    reveal_strlit(",\"load5\":");
    reveal_strlit(",\"load15\":");
    assert forall|k: int| 0 <= k < 11 implies (#[trigger] spec_field_keys()[k]).len() >= 1
        && !spec_is_digit(spec_field_keys()[k][0]) by {
        if k == 0 {
            assert(spec_field_keys()[0].len() >= 1 && !spec_is_digit(spec_field_keys()[0][0]));
        } else if k == 1 {
            assert(spec_field_keys()[1].len() >= 1 && !spec_is_digit(spec_field_keys()[1][0]));
        } else if k == 2 {
            assert(spec_field_keys()[2].len() >= 1 && !spec_is_digit(spec_field_keys()[2][0]));
        } else if k == 3 {
            assert(spec_field_keys()[3].len() >= 1 && !spec_is_digit(spec_field_keys()[3][0]));
        } else if k == 4 {
            assert(spec_field_keys()[4].len() >= 1 && !spec_is_digit(spec_field_keys()[4][0]));
        } else if k == 5 {
            assert(spec_field_keys()[5].len() >= 1 && !spec_is_digit(spec_field_keys()[5][0]));
        } else if k == 6 {
            assert(spec_field_keys()[6].len() >= 1 && !spec_is_digit(spec_field_keys()[6][0]));
        } else if k == 7 {
            assert(spec_field_keys()[7].len() >= 1 && !spec_is_digit(spec_field_keys()[7][0]));
        } else if k == 8 {
            assert(spec_field_keys()[8].len() >= 1 && !spec_is_digit(spec_field_keys()[8][0]));
        } else if k == 9 {
            assert(spec_field_keys()[9].len() >= 1 && !spec_is_digit(spec_field_keys()[9][0]));
        } else {
            assert(spec_field_keys()[10].len() >= 1 && !spec_is_digit(spec_field_keys()[10][0]));
        }
    }
}

/// A snapshot's object text, grouped from the right; a stepping stone
/// between the flat form and the key-value-list form.
spec fn spec_json_nested(snap: StateSnapshot) -> Seq<char> {
    "{\"cpu_usage\":"@ + (spec_dec(snap.cpu_usage as nat) + (",\"mem_used\":"@ + (spec_dec(snap.mem_used as nat) + (",\"swap_used\":"@ + (spec_dec(snap.swap_used as nat) + (",\"disk_used\":"@ + (spec_dec(snap.disk_used as nat) + (",\"net_in_transfer\":"@ + (spec_dec(snap.net_in_transfer as nat) + (",\"net_out_transfer\":"@ + (spec_dec(snap.net_out_transfer as nat) + (",\"net_in_speed\":"@ + (spec_dec(snap.net_in_speed as nat) + (",\"net_out_speed\":"@ + (spec_dec(snap.net_out_speed as nat) + (",\"load1\":"@ + (spec_dec(snap.load1 as nat) + (",\"load5\":"@ + (spec_dec(snap.load5 as nat) + (",\"load15\":"@ + (spec_dec(snap.load15 as nat) + ("}"@))))))))))))))))))))))
}

/// The flat object text equals its right-grouped form.
#[verifier::rlimit(100)]
#[verifier::spinoff_prover]
proof fn lemma_flat_nested(snap: StateSnapshot)
    ensures
        spec_json_of_snapshot(snap) == spec_json_nested(snap),
{
    let d0 = spec_dec(snap.cpu_usage as nat);
    let d1 = spec_dec(snap.mem_used as nat);
    let d2 = spec_dec(snap.swap_used as nat);
    let d3 = spec_dec(snap.disk_used as nat);
    let d4 = spec_dec(snap.net_in_transfer as nat);
    let d5 = spec_dec(snap.net_out_transfer as nat);
    let d6 = spec_dec(snap.net_in_speed as nat);
    let d7 = spec_dec(snap.net_out_speed as nat);
    let d8 = spec_dec(snap.load1 as nat);
    let d9 = spec_dec(snap.load5 as nat);
    let d10 = spec_dec(snap.load15 as nat);
    let l0 = "{\"cpu_usage\":"@;
    let l1 = ",\"mem_used\":"@;
    let l2 = ",\"swap_used\":"@;
    let l3 = ",\"disk_used\":"@;
    let l4 = ",\"net_in_transfer\":"@;
    let l5 = ",\"net_out_transfer\":"@;
    let l6 = ",\"net_in_speed\":"@;
    let l7 = ",\"net_out_speed\":"@;
    let l8 = ",\"load1\":"@;
    let l9 = ",\"load5\":"@;
    let l10 = ",\"load15\":"@;
    let lb = "}"@;
    let g11 = lb;
    let g10 = l10 + (d10 + g11);
    let g9 = l9 + (d9 + g10);
    let g8 = l8 + (d8 + g9);
    let g7 = l7 + (d7 + g8);
    let g6 = l6 + (d6 + g7);
    let g5 = l5 + (d5 + g6);
    let g4 = l4 + (d4 + g5);
    let g3 = l3 + (d3 + g4);
    let g2 = l2 + (d2 + g3);
    let g1 = l1 + (d1 + g2);
    let g0 = l0 + (d0 + g1);
    let f0 = l0 + d0;
    let f1 = f0 + l1 + d1;
    let f2 = f1 + l2 + d2;
    let f3 = f2 + l3 + d3;
    let f4 = f3 + l4 + d4;
    let f5 = f4 + l5 + d5;
    let f6 = f5 + l6 + d6;
    let f7 = f6 + l7 + d7;
    let f8 = f7 + l8 + d8;
    let f9 = f8 + l9 + d9;
    let f10 = f9 + l10 + d10;
    assert(spec_json_of_snapshot(snap) == f10 + lb);
    assert(spec_json_nested(snap) == g0);
    assert(f10 + lb =~= f9 + g10);
    assert(f9 + g10 =~= f8 + g9);
    assert(f8 + g9 =~= f7 + g8);
    assert(f7 + g8 =~= f6 + g7);
    assert(f6 + g7 =~= f5 + g6);
    assert(f5 + g6 =~= f4 + g5);
    assert(f4 + g5 =~= f3 + g4);
    assert(f3 + g4 =~= f2 + g3);
    assert(f2 + g3 =~= f1 + g2);
    assert(f1 + g2 =~= f0 + g1);
    assert(f0 + g1 =~= g0);
}

/// The tail of the key-value list, from the load fields on, closed with the
/// brace, grouped from the right.
#[verifier::rlimit(100)]
#[verifier::spinoff_prover]
proof fn lemma_fields_nested_tail(snap: StateSnapshot)
    ensures
        spec_json_fields(spec_field_keys().skip(6), spec_values(snap).skip(6)) + "}"@
            == (",\"net_in_speed\":"@ + (spec_dec(snap.net_in_speed as nat) + (",\"net_out_speed\":"@ + (spec_dec(snap.net_out_speed as nat) + (",\"load1\":"@ + (spec_dec(snap.load1 as nat) + (",\"load5\":"@ + (spec_dec(snap.load5 as nat) + (",\"load15\":"@ + (spec_dec(snap.load15 as nat) + ("}"@))))))))))),
{
    let kk = spec_field_keys();
    let vv = spec_values(snap);
    let d0 = spec_dec(snap.cpu_usage as nat);
    let d1 = spec_dec(snap.mem_used as nat);
    let d2 = spec_dec(snap.swap_used as nat);
    let d3 = spec_dec(snap.disk_used as nat);
    let d4 = spec_dec(snap.net_in_transfer as nat);
    let d5 = spec_dec(snap.net_out_transfer as nat);
    let d6 = spec_dec(snap.net_in_speed as nat);
    let d7 = spec_dec(snap.net_out_speed as nat);
    let d8 = spec_dec(snap.load1 as nat);
    let d9 = spec_dec(snap.load5 as nat);
    let d10 = spec_dec(snap.load15 as nat);
    let l0 = "{\"cpu_usage\":"@;
    let l1 = ",\"mem_used\":"@;
    let l2 = ",\"swap_used\":"@;
    let l3 = ",\"disk_used\":"@;
    let l4 = ",\"net_in_transfer\":"@;
    let l5 = ",\"net_out_transfer\":"@;
    let l6 = ",\"net_in_speed\":"@;
    let l7 = ",\"net_out_speed\":"@;
    let l8 = ",\"load1\":"@;
    let l9 = ",\"load5\":"@;
    let l10 = ",\"load15\":"@;
    let lb = "}"@;
    let g11 = lb;
    let g10 = l10 + (d10 + g11);
    let g9 = l9 + (d9 + g10);
    let g8 = l8 + (d8 + g9);
    let g7 = l7 + (d7 + g8);
    let g6 = l6 + (d6 + g7);
    assert(kk.skip(6).drop_first() =~= kk.skip(7));
    assert(vv.skip(6).drop_first() =~= vv.skip(7));
    assert(kk.skip(7).drop_first() =~= kk.skip(8));
    assert(vv.skip(7).drop_first() =~= vv.skip(8));
    assert(kk.skip(8).drop_first() =~= kk.skip(9));
    assert(vv.skip(8).drop_first() =~= vv.skip(9));
    assert(kk.skip(9).drop_first() =~= kk.skip(10));
    assert(vv.skip(9).drop_first() =~= vv.skip(10));
    assert(kk.skip(10).drop_first() =~= kk.skip(11));
    assert(vv.skip(10).drop_first() =~= vv.skip(11));
    assert(kk.skip(11).len() == 0);
    assert(spec_json_fields(kk.skip(11), vv.skip(11)) == Seq::<char>::empty());
    assert(Seq::<char>::empty() + lb =~= g11);
    assert(spec_json_fields(kk.skip(11), vv.skip(11)) + lb == g11);
    lemma_json_fields_unfold(kk.skip(10), vv.skip(10));
    assert(kk.skip(10)[0] == kk[10]);
    assert(vv.skip(10)[0] == vv[10]);
    assert(kk[10] == l10);
    assert(vv[10] == snap.load15);
    assert((l10 + d10 + spec_json_fields(kk.skip(11), vv.skip(11))) + lb =~= l10 + (d10
        + (spec_json_fields(kk.skip(11), vv.skip(11)) + lb)));
    assert(spec_json_fields(kk.skip(10), vv.skip(10)) + lb == g10);
    lemma_json_fields_unfold(kk.skip(9), vv.skip(9));
    assert(kk.skip(9)[0] == kk[9]);
    assert(vv.skip(9)[0] == vv[9]);
    assert(kk[9] == l9);
    assert(vv[9] == snap.load5);
    assert((l9 + d9 + spec_json_fields(kk.skip(10), vv.skip(10))) + lb =~= l9 + (d9
        + (spec_json_fields(kk.skip(10), vv.skip(10)) + lb)));
    assert(spec_json_fields(kk.skip(9), vv.skip(9)) + lb == g9);
    lemma_json_fields_unfold(kk.skip(8), vv.skip(8));
    assert(kk.skip(8)[0] == kk[8]);
    assert(vv.skip(8)[0] == vv[8]);
    assert(kk[8] == l8);
    assert(vv[8] == snap.load1);
    assert((l8 + d8 + spec_json_fields(kk.skip(9), vv.skip(9))) + lb =~= l8 + (d8
        + (spec_json_fields(kk.skip(9), vv.skip(9)) + lb)));
    assert(spec_json_fields(kk.skip(8), vv.skip(8)) + lb == g8);
    lemma_json_fields_unfold(kk.skip(7), vv.skip(7));
    assert(kk.skip(7)[0] == kk[7]);
    assert(vv.skip(7)[0] == vv[7]);
    assert(kk[7] == l7);
    assert(vv[7] == snap.net_out_speed);
    assert((l7 + d7 + spec_json_fields(kk.skip(8), vv.skip(8))) + lb =~= l7 + (d7
        + (spec_json_fields(kk.skip(8), vv.skip(8)) + lb)));
    assert(spec_json_fields(kk.skip(7), vv.skip(7)) + lb == g7);
    lemma_json_fields_unfold(kk.skip(6), vv.skip(6));
    assert(kk.skip(6)[0] == kk[6]);
    assert(vv.skip(6)[0] == vv[6]);
    assert(kk[6] == l6);
    assert(vv[6] == snap.net_in_speed);
    assert((l6 + d6 + spec_json_fields(kk.skip(7), vv.skip(7))) + lb =~= l6 + (d6
        + (spec_json_fields(kk.skip(7), vv.skip(7)) + lb)));
    assert(spec_json_fields(kk.skip(6), vv.skip(6)) + lb == g6);
}

/// The key-value-list text, closed with the brace, equals the same
/// right-grouped form.
#[verifier::rlimit(100)]
#[verifier::spinoff_prover]
proof fn lemma_fields_nested(snap: StateSnapshot)
    ensures
        spec_json_fields(spec_field_keys(), spec_values(snap)) + "}"@ == spec_json_nested(
            snap,
        ),
{
    let kk = spec_field_keys();
    let vv = spec_values(snap);
    let d0 = spec_dec(snap.cpu_usage as nat);
    let d1 = spec_dec(snap.mem_used as nat);
    let d2 = spec_dec(snap.swap_used as nat);
    let d3 = spec_dec(snap.disk_used as nat);
    let d4 = spec_dec(snap.net_in_transfer as nat);
    let d5 = spec_dec(snap.net_out_transfer as nat);
    let d6 = spec_dec(snap.net_in_speed as nat);
    let d7 = spec_dec(snap.net_out_speed as nat);
    let d8 = spec_dec(snap.load1 as nat);
    let d9 = spec_dec(snap.load5 as nat);
    let d10 = spec_dec(snap.load15 as nat);
    let l0 = "{\"cpu_usage\":"@;
    let l1 = ",\"mem_used\":"@;
    let l2 = ",\"swap_used\":"@;
    let l3 = ",\"disk_used\":"@;
    let l4 = ",\"net_in_transfer\":"@;
    let l5 = ",\"net_out_transfer\":"@;
    let l6 = ",\"net_in_speed\":"@;
    let l7 = ",\"net_out_speed\":"@;
    let l8 = ",\"load1\":"@;
    let l9 = ",\"load5\":"@;
    let l10 = ",\"load15\":"@;
    let lb = "}"@;
    let g11 = lb;
    let g10 = l10 + (d10 + g11);
    let g9 = l9 + (d9 + g10);
    let g8 = l8 + (d8 + g9);
    let g7 = l7 + (d7 + g8);
    let g6 = l6 + (d6 + g7);
    let g5 = l5 + (d5 + g6);
    let g4 = l4 + (d4 + g5);
    let g3 = l3 + (d3 + g4);
    let g2 = l2 + (d2 + g3);
    let g1 = l1 + (d1 + g2);
    let g0 = l0 + (d0 + g1);
    assert(spec_json_nested(snap) == g0);
    lemma_fields_nested_tail(snap);
    assert(spec_json_fields(kk.skip(6), vv.skip(6)) + lb == g6);
    assert(kk.skip(0).drop_first() =~= kk.skip(1));
    assert(vv.skip(0).drop_first() =~= vv.skip(1));
    assert(kk.skip(1).drop_first() =~= kk.skip(2));
    assert(vv.skip(1).drop_first() =~= vv.skip(2));
    assert(kk.skip(2).drop_first() =~= kk.skip(3));
    assert(vv.skip(2).drop_first() =~= vv.skip(3));
    assert(kk.skip(3).drop_first() =~= kk.skip(4));
    assert(vv.skip(3).drop_first() =~= vv.skip(4));
    assert(kk.skip(4).drop_first() =~= kk.skip(5));
    assert(vv.skip(4).drop_first() =~= vv.skip(5));
    assert(kk.skip(5).drop_first() =~= kk.skip(6));
    assert(vv.skip(5).drop_first() =~= vv.skip(6));
    lemma_json_fields_unfold(kk.skip(5), vv.skip(5));
    assert(kk.skip(5)[0] == kk[5]);
    assert(vv.skip(5)[0] == vv[5]);
    assert(kk[5] == l5);
    assert(vv[5] == snap.net_out_transfer);
    assert((l5 + d5 + spec_json_fields(kk.skip(6), vv.skip(6))) + lb =~= l5 + (d5
        + (spec_json_fields(kk.skip(6), vv.skip(6)) + lb)));
    assert(spec_json_fields(kk.skip(5), vv.skip(5)) + lb == g5);
    lemma_json_fields_unfold(kk.skip(4), vv.skip(4));
    assert(kk.skip(4)[0] == kk[4]);
    assert(vv.skip(4)[0] == vv[4]);
    assert(kk[4] == l4);
    assert(vv[4] == snap.net_in_transfer);
    assert((l4 + d4 + spec_json_fields(kk.skip(5), vv.skip(5))) + lb =~= l4 + (d4
        + (spec_json_fields(kk.skip(5), vv.skip(5)) + lb)));
    assert(spec_json_fields(kk.skip(4), vv.skip(4)) + lb == g4);
    lemma_json_fields_unfold(kk.skip(3), vv.skip(3));
    assert(kk.skip(3)[0] == kk[3]);
    assert(vv.skip(3)[0] == vv[3]);
    assert(kk[3] == l3);
    assert(vv[3] == snap.disk_used);
    assert((l3 + d3 + spec_json_fields(kk.skip(4), vv.skip(4))) + lb =~= l3 + (d3
        + (spec_json_fields(kk.skip(4), vv.skip(4)) + lb)));
    assert(spec_json_fields(kk.skip(3), vv.skip(3)) + lb == g3);
    lemma_json_fields_unfold(kk.skip(2), vv.skip(2));
    assert(kk.skip(2)[0] == kk[2]);
    assert(vv.skip(2)[0] == vv[2]);
    assert(kk[2] == l2);
    assert(vv[2] == snap.swap_used);
    assert((l2 + d2 + spec_json_fields(kk.skip(3), vv.skip(3))) + lb =~= l2 + (d2
        + (spec_json_fields(kk.skip(3), vv.skip(3)) + lb)));
    assert(spec_json_fields(kk.skip(2), vv.skip(2)) + lb == g2);
    lemma_json_fields_unfold(kk.skip(1), vv.skip(1));
    assert(kk.skip(1)[0] == kk[1]);
    assert(vv.skip(1)[0] == vv[1]);
    assert(kk[1] == l1);
    assert(vv[1] == snap.mem_used);
    assert((l1 + d1 + spec_json_fields(kk.skip(2), vv.skip(2))) + lb =~= l1 + (d1
        + (spec_json_fields(kk.skip(2), vv.skip(2)) + lb)));
    assert(spec_json_fields(kk.skip(1), vv.skip(1)) + lb == g1);
    lemma_json_fields_unfold(kk.skip(0), vv.skip(0));
    assert(kk.skip(0)[0] == kk[0]);
    assert(vv.skip(0)[0] == vv[0]);
    assert(kk[0] == l0);
    assert(vv[0] == snap.cpu_usage);
    assert((l0 + d0 + spec_json_fields(kk.skip(1), vv.skip(1))) + lb =~= l0 + (d0
        + (spec_json_fields(kk.skip(1), vv.skip(1)) + lb)));
    assert(spec_json_fields(kk.skip(0), vv.skip(0)) + lb == g0);
    assert(kk.skip(0) =~= kk);
    assert(vv.skip(0) =~= vv);
    assert(spec_json_fields(kk, vv) + lb == g0);
}

/// One step of the key-value list's text.
proof fn lemma_json_fields_unfold(keys: Seq<Seq<char>>, vals: Seq<u64>)
    requires
        keys.len() >= 1,
        vals.len() >= 1,
    ensures
        spec_json_fields(keys, vals) == keys[0] + spec_dec(vals[0] as nat) + spec_json_fields(
            keys.drop_first(),
            vals.drop_first(),
        ),
{
}

/// A snapshot's object text is its key-value list followed by the closing
/// brace.
proof fn lemma_snapshot_fields_form(snap: StateSnapshot)
    ensures
        spec_json_of_snapshot(snap) == spec_json_fields(spec_field_keys(), spec_values(snap))
            + "}"@,
{
    lemma_flat_nested(snap);
    lemma_fields_nested(snap);
}

/// Parsing at a snapshot's object text yields that snapshot.
proof fn lemma_parse_snapshot_of(s: Seq<char>, i: int, snap: StateSnapshot)
    requires
        0 <= i,
        i + spec_json_of_snapshot(snap).len() <= s.len(),
        s.subrange(i, i + spec_json_of_snapshot(snap).len()) == spec_json_of_snapshot(snap),
    ensures
        spec_parse_snapshot(s, i) == Some((snap, i + spec_json_of_snapshot(snap).len())),
{
    let keys = spec_field_keys();
    let vals = spec_values(snap);
    let jf = spec_json_fields(keys, vals);
    lemma_snapshot_fields_form(snap);
    lemma_field_keys_wf();
    reveal_strlit("}");
    lemma_region_split(s, i, jf, "}"@);
    let j = i + jf.len();
    assert(s.subrange(j, j + 1)[0] == s[j]);
    assert(s[j] == '}');
    assert(!spec_is_digit(s[j]));
    lemma_parse_fields_of(s, i, keys, vals);
    assert(spec_parse_fields(s, i, keys) == Some((vals, j)));
    assert(snap_of_values(vals) == snap);
    assert(i + spec_json_of_snapshot(snap).len() == j + 1);
}

/// An item list's text is at least as long as the list.
proof fn lemma_items_len(l: Seq<StateSnapshot>)
    ensures
        spec_json_items(l).len() >= l.len(),
        l.len() >= 1 ==> spec_json_items(l).len() >= 1,
    decreases l.len(),
{
    if l.len() >= 1 {
        lemma_snapshot_fields_form(l[0]);
        reveal_strlit("}");
        assert(spec_json_of_snapshot(l[0]).len() >= 1);
        if l.len() > 1 {
            lemma_items_len(l.drop_first());
        }
    }
}

/// Parsing at an item list's text, ending at a boundary that is not a comma,
/// yields the whole list.
proof fn lemma_parse_items_of(s: Seq<char>, i: int, l: Seq<StateSnapshot>, fuel: nat)
    requires
        l.len() >= 1,
        0 <= i,
        i + spec_json_items(l).len() <= s.len(),
        s.subrange(i, i + spec_json_items(l).len()) == spec_json_items(l),
        i + spec_json_items(l).len() == s.len() || s[i + spec_json_items(l).len()] != ',',
        fuel >= l.len(),
    ensures
        spec_parse_items(s, i, fuel) == Some((l, i + spec_json_items(l).len())),
    decreases l.len(),
{
    let items = spec_json_items(l);
    if l.len() == 1 {
        assert(items == spec_json_of_snapshot(l[0]));
        lemma_parse_snapshot_of(s, i, l[0]);
        let j = i + items.len();
        assert(seq![l[0]] =~= l);
    } else {
        let rest = l.drop_first();
        let tail = ","@ + spec_json_items(rest);
        assert(items == spec_json_of_snapshot(l[0]) + ","@ + spec_json_items(rest));
        assert(items =~= spec_json_of_snapshot(l[0]) + tail);
        lemma_region_split(s, i, spec_json_of_snapshot(l[0]), tail);
        lemma_parse_snapshot_of(s, i, l[0]);
        let j = i + spec_json_of_snapshot(l[0]).len() as int;
        reveal_strlit(",");
        lemma_region_split(s, j, ","@, spec_json_items(rest));
        assert(s.subrange(j, j + 1)[0] == s[j]);
        assert(s[j] == ',');
        lemma_items_len(rest);
        assert(j < s.len());
        lemma_parse_items_of(s, j + 1, rest, (fuel - 1) as nat);
        assert(seq![l[0]] + rest =~= l);
        assert(j + 1 + spec_json_items(rest).len() == i + items.len());
    }
}

/// Law: decoding an encoded window yields exactly the snapshots that were
/// encoded — the payload format loses nothing.
pub proof fn lemma_decode_of_encode(l: Seq<StateSnapshot>)
    ensures
        spec_decode(spec_json_of_snapshots(l)) == Some(l),
{
    let items = spec_json_items(l);
    let s = spec_json_of_snapshots(l);
    reveal_strlit("[");
    reveal_strlit("]");
    assert(s.len() == 2 + items.len());
    assert(s[0] == '[');
    assert(s.last() == ']');
    if l.len() == 0 {
        assert(s.len() == 2);
        assert(l =~= Seq::<StateSnapshot>::empty());
    } else {
        lemma_items_len(l);
        assert(s.len() >= 3);
        assert(s =~= "["@ + (items + "]"@));
        assert(s.subrange(0, s.len() as int) =~= s);
        assert(s.len() as int == 1 + (items + "]"@).len() as int);
        assert(s.subrange(0, 1 + (items + "]"@).len() as int) == "["@ + (items + "]"@));
        lemma_region_split(s, 0, "["@, items + "]"@);
        lemma_region_split(s, 1, items, "]"@);
        let e = 1 + items.len() as int;
        assert(s[e] == s.subrange(e, e + 1)[0]);
        assert(s[e] == ']');
        assert(s[e] != ',');
        assert(s.len() as nat >= l.len());
        lemma_parse_items_of(s, 1, l, s.len() as nat);
        assert(spec_parse_items(s, 1, s.len() as nat) == Some((l, e)));
        assert(e == s.len() - 1);
    }
}

proof fn lemma_digit_char_inverse(c: char)
    requires
        spec_is_digit(c),
    ensures
        spec_digit(spec_digit_val(c)) == c,
{
    assert(spec_digit(spec_digit_val(c)) as u32 == c as u32);
}

/// Two adjacent known regions join to their concatenation.
proof fn lemma_region_join(s: Seq<char>, i: int, a: Seq<char>, b: Seq<char>)
    requires
        0 <= i,
        i + a.len() + b.len() <= s.len(),
        s.subrange(i, i + a.len()) == a,
        s.subrange(i + a.len(), i + a.len() + b.len()) == b,
    ensures
        s.subrange(i, i + a.len() + b.len()) == a + b,
{
    let whole = i + a.len() + b.len();
    assert forall|u: int| 0 <= u < a.len() + b.len() implies s.subrange(i, whole)[u] == (a + b)[u] by {
        if u < a.len() {
            assert(s.subrange(i, i + a.len() as int)[u] == s[i + u]);
        } else {
            assert(s.subrange(i + a.len(), whole)[u - a.len()] == s[i + u]);
        }
        assert(s.subrange(i, whole)[u] == s[i + u]);
    }
    assert(s.subrange(i, whole) =~= a + b);
}

/// A canonical digit string prints back from its value.
proof fn lemma_dec_of_val(ds: Seq<char>)
    requires
        ds.len() >= 1,
        forall|t: int| 0 <= t < ds.len() ==> spec_is_digit(#[trigger] ds[t]),
        ds[0] == '0' ==> ds.len() == 1,
    ensures
        spec_val(ds) >= 0,
        spec_dec(spec_val(ds) as nat) == ds,
    decreases ds.len(),
{
    lemma_val_nonneg(ds);
    if ds.len() == 1 {
        lemma_digit_char_inverse(ds[0]);
        assert(ds.drop_last() =~= Seq::<char>::empty());
        assert(spec_val(ds.drop_last()) == 0);
        assert(ds.last() == ds[0]);
        assert(spec_val(ds) == spec_digit_val(ds[0]));
        assert(spec_val(ds) < 10);
        assert(spec_dec(spec_val(ds) as nat) =~= ds);
    } else {
        let dl = ds.drop_last();
        let d = spec_digit_val(ds.last());
        assert(forall|t: int| 0 <= t < dl.len() ==> spec_is_digit(#[trigger] dl[t]));
        assert(dl[0] == ds[0]);
        assert(ds[0] != '0');
        lemma_dec_of_val(dl);
        // the leading digit keeps the value at ten or more
        lemma_val_front(dl);
        lemma_val_nonneg(dl.drop_first());
        lemma_pow10_pos((dl.len() - 1) as nat);
        lemma_digit_char_inverse(dl[0]);
        assert(spec_digit_val(dl[0]) >= 1) by {
            if spec_digit_val(dl[0]) == 0 {
                assert(spec_digit(spec_digit_val(dl[0])) == dl[0]);
                assert(dl[0] == '0');
            }
        }
        assert(spec_digit_val(dl[0]) * spec_pow10((dl.len() - 1) as nat) >= spec_pow10(
            (dl.len() - 1) as nat,
        )) by (nonlinear_arith)
            requires
                spec_digit_val(dl[0]) >= 1,
                spec_pow10((dl.len() - 1) as nat) >= 1,
        ;
        assert(spec_val(dl) >= 1);
        let v = spec_val(ds);
        assert(v == spec_val(dl) * 10 + d);
        vstd::arithmetic::div_mod::lemma_fundamental_div_mod_converse(
            v,
            10,
            spec_val(dl),
            d,
        );
        assert(v / 10 == spec_val(dl));
        assert(v % 10 == d);
        assert(v >= 10) by (nonlinear_arith)
            requires
                v == spec_val(dl) * 10 + d,
                spec_val(dl) >= 1,
                d >= 0,
        ;
        lemma_digit_char_inverse(ds.last());
        assert(spec_dec(v as nat) == spec_dec(spec_val(dl) as nat).push(ds.last()));
        assert(spec_dec(v as nat) =~= ds);
    }
}

/// What a successful digit-run parse says of the text: the consumed region is
/// all digits, ends at a non-digit boundary, and carries the parsed value.
proof fn lemma_num_loop_sound(s: Seq<char>, i: int, acc: u64, v: u64, j: int)
    requires
        0 <= i <= s.len(),
        spec_parse_num_loop(s, i, acc) == Some((v, j)),
    ensures
        i <= j <= s.len(),
        forall|t: int| i <= t < j ==> spec_is_digit(#[trigger] s[t]),
        j == s.len() || !spec_is_digit(s[j]),
        v == acc * spec_pow10((j - i) as nat) + spec_val(s.subrange(i, j)),
    decreases s.len() - i,
{
    if i >= s.len() || !spec_is_digit(s[i]) {
        assert(j == i);
        assert(s.subrange(i, j).len() == 0);
        assert(spec_pow10(0) == 1);
    } else {
        let d = spec_digit_val(s[i]);
        assert(acc * 10 + d <= u64::MAX);
        let acc2 = (acc * 10 + d) as u64;
        lemma_num_loop_sound(s, i + 1, acc2, v, j);
        let region = s.subrange(i, j);
        assert(region[0] == s[i]);
        assert forall|t: int| i <= t < j implies spec_is_digit(#[trigger] s[t]) by {
            if t > i {
                assert(spec_is_digit(s[t]));
            }
        }
        lemma_val_front(region);
        assert(region.drop_first() =~= s.subrange(i + 1, j));
        let ln = (j - i) as nat;
        let p1 = spec_pow10((ln - 1) as nat);
        assert(spec_pow10(ln) == 10 * p1);
        assert(v == (acc * 10 + d) * p1 + spec_val(s.subrange(i + 1, j)));
        assert((acc * 10 + d) * p1 == acc * (10 * p1) + d * p1) by (nonlinear_arith);
        assert(spec_val(region) == d * p1 + spec_val(s.subrange(i + 1, j)));
        assert(v == acc * spec_pow10(ln) + spec_val(region));
    }
}

/// What a successful numeral parse says of the text: the consumed region is
/// the canonical numeral of the value.
proof fn lemma_parse_number_sound(s: Seq<char>, i: int, v: u64, j: int)
    requires
        0 <= i <= s.len(),
        spec_parse_number(s, i) == Some((v, j)),
    ensures
        i < j <= s.len(),
        s.subrange(i, j) == spec_dec(v as nat),
        j == s.len() || !spec_is_digit(s[j]),
{
    lemma_num_loop_sound(s, i, 0, v, j);
    assert(spec_is_digit(s[i]));
    assert(j > i);
    let region = s.subrange(i, j);
    assert(region[0] == s[i]);
    if s[i] == '0' {
        // the parser rejected a digit after a leading zero, so the region is
        // the single zero digit
        assert(!(i + 1 < s.len() && spec_is_digit(s[i + 1])));
        if j > i + 1 {
            assert(spec_is_digit(s[i + 1]));
            assert(false);
        }
        assert(region.len() == 1);
    }
    assert(spec_pow10(0) == 1);
    assert(v == spec_val(region));
    lemma_dec_of_val(region);
}

/// What a successful field-list parse says of the text: the consumed region
/// is exactly the key-value list of the parsed values.
proof fn lemma_parse_fields_sound(
    s: Seq<char>,
    i: int,
    keys: Seq<Seq<char>>,
    vals: Seq<u64>,
    j: int,
)
    requires
        0 <= i <= s.len(),
        spec_parse_fields(s, i, keys) == Some((vals, j)),
    ensures
        vals.len() == keys.len(),
        i <= j <= s.len(),
        s.subrange(i, j) == spec_json_fields(keys, vals),
    decreases keys.len(),
{
    if keys.len() == 0 {
        assert(vals =~= Seq::<u64>::empty());
        assert(s.subrange(i, i).len() == 0);
        assert(s.subrange(i, j) =~= spec_json_fields(keys, vals));
    } else {
        let j0 = spec_expect(s, i, keys[0])->Some_0;
        assert(s.subrange(i, i + keys[0].len() as int) == keys[0]);
        let (v, j1) = spec_parse_number(s, j0)->Some_0;
        lemma_parse_number_sound(s, j0, v, j1);
        let (vs, m) = spec_parse_fields(s, j1, keys.drop_first())->Some_0;
        lemma_parse_fields_sound(s, j1, keys.drop_first(), vs, m);
        assert(m == j);
        lemma_region_join(s, j0, spec_dec(v as nat), spec_json_fields(keys.drop_first(), vs));
        lemma_region_join(
            s,
            i,
            keys[0],
            spec_dec(v as nat) + spec_json_fields(keys.drop_first(), vs),
        );
        assert(vals =~= seq![v] + vs);
        assert(vals[0] == v);
        assert(vals.drop_first() =~= vs);
        assert(spec_json_fields(keys, vals) == keys[0] + spec_dec(v as nat) + spec_json_fields(
            keys.drop_first(),
            vs,
        ));
        assert(keys[0] + spec_dec(v as nat) + spec_json_fields(keys.drop_first(), vs) =~= keys[0]
            + (spec_dec(v as nat) + spec_json_fields(keys.drop_first(), vs)));
    }
}

/// What a successful snapshot parse says of the text: the consumed region is
/// exactly the parsed snapshot's object.
proof fn lemma_parse_snapshot_sound(s: Seq<char>, i: int, snap: StateSnapshot, j: int)
    requires
        0 <= i <= s.len(),
        spec_parse_snapshot(s, i) == Some((snap, j)),
    ensures
        i < j <= s.len(),
        s.subrange(i, j) == spec_json_of_snapshot(snap),
{
    let (vals, j0) = spec_parse_fields(s, i, spec_field_keys())->Some_0;
    lemma_parse_fields_sound(s, i, spec_field_keys(), vals, j0);
    assert(s[j0] == '}');
    assert(j == j0 + 1);
    reveal_strlit("}");
    assert(s.subrange(j0, j0 + 1) =~= "}"@);
    lemma_region_join(s, i, spec_json_fields(spec_field_keys(), vals), "}"@);
    assert(vals.len() == 11);
    assert(spec_values(snap_of_values(vals)) =~= vals);
    lemma_snapshot_fields_form(snap);
    assert(snap == snap_of_values(vals));
    lemma_field_keys_wf();
    lemma_json_fields_len_first(spec_field_keys(), vals);
    assert(spec_json_fields(spec_field_keys(), vals).len() >= 1);
}

/// What a successful item-list parse says of the text: the consumed region is
/// exactly the parsed snapshots' comma-separated objects.
proof fn lemma_parse_items_sound(s: Seq<char>, i: int, fuel: nat, l: Seq<StateSnapshot>, j: int)
    requires
        0 <= i <= s.len(),
        spec_parse_items(s, i, fuel) == Some((l, j)),
    ensures
        l.len() >= 1,
        i < j <= s.len(),
        s.subrange(i, j) == spec_json_items(l),
    decreases fuel,
{
    let (snap, j0) = spec_parse_snapshot(s, i)->Some_0;
    lemma_parse_snapshot_sound(s, i, snap, j0);
    if 0 <= j0 < s.len() && s[j0] == ',' {
        let (rest, m) = spec_parse_items(s, j0 + 1, (fuel - 1) as nat)->Some_0;
        lemma_parse_items_sound(s, j0 + 1, (fuel - 1) as nat, rest, m);
        assert(m == j);
        assert(l =~= seq![snap] + rest);
        reveal_strlit(",");
        assert(s.subrange(j0, j0 + 1) =~= ","@);
        lemma_region_join(s, j0, ","@, spec_json_items(rest));
        lemma_region_join(s, i, spec_json_of_snapshot(snap), ","@ + spec_json_items(rest));
        assert(l[0] == snap);
        assert(l.drop_first() =~= rest);
        assert(l.len() >= 2);
        assert(spec_json_items(l) == spec_json_of_snapshot(snap) + ","@ + spec_json_items(rest));
        assert(spec_json_of_snapshot(snap) + ","@ + spec_json_items(rest)
            =~= spec_json_of_snapshot(snap) + (","@ + spec_json_items(rest)));
    } else {
        assert(l =~= seq![snap]);
        assert(spec_json_items(l) == spec_json_of_snapshot(l[0]));
        assert(l[0] == snap);
    }
}

/// Law: the decoder accepts exactly the canonical encodings — whatever
/// decodes is the encoding of what it decoded to. Together with
/// [`lemma_decode_of_encode`] this pins the payload format completely.
pub proof fn lemma_encode_of_decode(s: Seq<char>)
    requires
        spec_decode(s) is Some,
    ensures
        s == spec_json_of_snapshots(spec_decode(s)->Some_0),
{
    reveal_strlit("[");
    reveal_strlit("]");
    let l = spec_decode(s)->Some_0;
    if s.len() == 2 {
        assert(l =~= Seq::<StateSnapshot>::empty());
        assert(spec_json_items(l).len() == 0);
        assert(spec_json_of_snapshots(l).len() == 2);
        assert(spec_json_of_snapshots(l)[0] == '[');
        assert(spec_json_of_snapshots(l)[1] == ']');
        assert(s =~= spec_json_of_snapshots(l));
    } else {
        let (items, j) = spec_parse_items(s, 1, s.len() as nat)->Some_0;
        assert(j == s.len() - 1);
        lemma_parse_items_sound(s, 1, s.len() as nat, items, j);
        assert(s.subrange(1, s.len() - 1) == spec_json_items(items));
        assert forall|u: int| 0 <= u < s.len() implies s[u] == spec_json_of_snapshots(l)[u] by {
            if u == 0 {
                assert(s[0] == '[');
            } else if u == s.len() - 1 {
                assert(s[u] == ']');
            } else {
                assert(s.subrange(1, s.len() - 1)[u - 1] == s[u]);
            }
        }
        assert(spec_json_of_snapshots(l).len() == 2 + spec_json_items(l).len());
        assert(s =~= spec_json_of_snapshots(l));
    }
}

} // verus!
