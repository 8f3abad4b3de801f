//! Host-string utilities: recognizing IP literals and editing the port of a
//! `host:port` string.
//!
//! The two recognizers accept exactly the address shapes the rest of the
//! system writes: an IPv4 literal is four decimal octets (values up to 255,
//! one to three digits each) separated by dots, optionally followed by
//! `:port`; an IPv6 literal is two or more groups of one to four hex digits
//! separated by one or two colons, either bare or bracketed with a `:port`
//! suffix. The editors append or adjust the port while leaving anything
//! unrecognized untouched.

use vstd::prelude::*;
use vstd::string::{StrSliceExecFns, StringExecFns};

verus! {

pub open spec fn spec_is_digit(c: char) -> bool {
    48 <= c as int <= 57
}

pub open spec fn spec_is_hex(c: char) -> bool {
    spec_is_digit(c) || 97 <= c as int <= 102 || 65 <= c as int <= 70
}

/// Length of the run of decimal digits starting at `i`.
pub open spec fn digit_run(s: Seq<char>, i: int) -> int
    decreases s.len() - i,
{
    if i < 0 || i >= s.len() || !spec_is_digit(s[i]) {
        0
    } else {
        1 + digit_run(s, i + 1)
    }
}

/// Length of the run of hex digits starting at `i`.
pub open spec fn hex_run(s: Seq<char>, i: int) -> int
    decreases s.len() - i,
{
    if i < 0 || i >= s.len() || !spec_is_hex(s[i]) {
        0
    } else {
        1 + hex_run(s, i + 1)
    }
}

/// Index of the first `c` at or after `i`, or the length when there is none.
pub open spec fn spec_find(s: Seq<char>, i: int, c: char) -> int
    decreases s.len() - i,
{
    if i < 0 {
        spec_find(s, 0, c)
    } else if i >= s.len() {
        s.len() as int
    } else if s[i] == c {
        i
    } else {
        spec_find(s, i + 1, c)
    }
}

/// A decimal octet of `r` digits starting at `i` denotes a value of at most
/// 255: one or two digits always do, three only below the value 256.
pub open spec fn spec_octet_at(s: Seq<char>, i: int, r: int) -> bool {
    &&& 1 <= r
    &&& r <= 3
    &&& (r < 3 || (s[i] as int) < 50 || (s[i] == '2' && ((s[i + 1] as int) < 53 || (s[i + 1] == '5'
        && (s[i + 2] as int) <= 53))))
}

/// From position `i`, exactly `parts` dot-separated octets, and after the
/// last one either the end of the string or a colon and at least one digit
/// of port.
pub open spec fn spec_ipv4_parts(s: Seq<char>, i: int, parts: int) -> bool
    decreases parts,
{
    if parts <= 0 {
        false
    } else {
        let r = digit_run(s, i);
        if !spec_octet_at(s, i, r) {
            false
        } else if parts == 1 {
            if i + r == s.len() {
                true
            } else if i + r < s.len() && s[i + r] == ':' {
                let p = digit_run(s, i + r + 1);
                p >= 1 && i + r + 1 + p == s.len()
            } else {
                false
            }
        } else {
            i + r < s.len() && s[i + r] == '.' && spec_ipv4_parts(s, i + r + 1, parts - 1)
        }
    }
}

/// An IPv4 literal, optionally with a `:port` suffix.
pub open spec fn spec_is_ipv4_str(s: Seq<char>) -> bool {
    spec_ipv4_parts(s, 0, 4)
}

/// From a colon at `i`: one or two colons, then a group of one to four hex
/// digits, repeated until the group that ends the string.
pub open spec fn spec_ipv6_rest(s: Seq<char>, i: int) -> bool
    decreases s.len() - i,
{
    if i < 0 || i >= s.len() || s[i] != ':' {
        false
    } else {
        let j = if i + 1 < s.len() && s[i + 1] == ':' {
            i + 2
        } else {
            i + 1
        };
        let r = hex_run(s, j);
        if r < 1 || r > 4 {
            false
        } else if j + r >= s.len() {
            true
        } else {
            spec_ipv6_rest(s, j + r)
        }
    }
}

/// Two or more groups of one to four hex digits, separated by one or two
/// colons, spanning the whole string.
pub open spec fn spec_ipv6_body(s: Seq<char>) -> bool {
    let r = hex_run(s, 0);
    1 <= r <= 4 && spec_ipv6_rest(s, r)
}

/// An IPv6 literal: a bare group form, or a bracketed group form followed
/// by a colon and at least one digit of port.
pub open spec fn spec_is_ipv6_str(s: Seq<char>) -> bool {
    if s.len() > 0 && s[0] == '[' {
        let k = spec_find(s, 0, ']');
        &&& k < s.len()
        &&& spec_ipv6_body(s.subrange(1, k))
        &&& k + 1 < s.len()
        &&& s[k + 1] == ':'
        &&& ({
            let p = digit_run(s, k + 2);
            p >= 1 && k + 2 + p == s.len()
        })
    } else {
        spec_ipv6_body(s)
    }
}

/// A run never reaches past the end of the string.
proof fn lemma_digit_run_bound(s: Seq<char>, i: int)
    requires
        0 <= i <= s.len(),
    ensures
        0 <= digit_run(s, i) <= s.len() - i,
    decreases s.len() - i,
{
    if i < s.len() && spec_is_digit(s[i]) {
        lemma_digit_run_bound(s, i + 1);
    }
}

/// A run never reaches past the end of the string.
proof fn lemma_hex_run_bound(s: Seq<char>, i: int)
    requires
        0 <= i <= s.len(),
    ensures
        0 <= hex_run(s, i) <= s.len() - i,
    decreases s.len() - i,
{
    if i < s.len() && spec_is_hex(s[i]) {
        lemma_hex_run_bound(s, i + 1);
    }
}

fn is_digit_char(c: char) -> (r: bool)
    ensures
        r == spec_is_digit(c),
{
    let u = c as u32;
    48 <= u && u <= 57
}

fn is_hex_char(c: char) -> (r: bool)
    ensures
        r == spec_is_hex(c),
{
    let u = c as u32;
    (48 <= u && u <= 57) || (97 <= u && u <= 102) || (65 <= u && u <= 70)
}

fn digit_run_at(s: &str, i: usize) -> (r: usize)
    requires
        i <= s@.len(),
    ensures
        r as int == digit_run(s@, i as int),
        i + r <= s@.len(),
    decreases s@.len() - i,
{
    proof {
        lemma_digit_run_bound(s@, i as int);
    }
    if i >= s.unicode_len() {
        return 0;
    }
    if !is_digit_char(s.get_char(i)) {
        return 0;
    }
    1 + digit_run_at(s, i + 1)
}

fn hex_run_at(s: &str, i: usize) -> (r: usize)
    requires
        i <= s@.len(),
    ensures
        r as int == hex_run(s@, i as int),
        i + r <= s@.len(),
    decreases s@.len() - i,
{
    proof {
        lemma_hex_run_bound(s@, i as int);
    }
    if i >= s.unicode_len() {
        return 0;
    }
    if !is_hex_char(s.get_char(i)) {
        return 0;
    }
    1 + hex_run_at(s, i + 1)
}

fn find_char(s: &str, i: usize, c: char) -> (r: usize)
    requires
        i <= s@.len(),
    ensures
        r as int == spec_find(s@, i as int, c),
        i <= r <= s@.len(),
        r < s@.len() ==> s@[r as int] == c,
    decreases s@.len() - i,
{
    if i >= s.unicode_len() {
        return s.unicode_len();
    }
    if s.get_char(i) == c {
        return i;
    }
    find_char(s, i + 1, c)
}

fn ipv4_parts_at(s: &str, i: usize, parts: usize) -> (r: bool)
    requires
        i <= s@.len(),
    ensures
        r == spec_ipv4_parts(s@, i as int, parts as int),
    decreases parts,
{
    if parts == 0 {
        return false;
    }
    let n = s.unicode_len();
    let run = digit_run_at(s, i);
    let octet_ok: bool;
    if run < 1 || run > 3 {
        octet_ok = false;
    } else if run < 3 {
        octet_ok = true;
    } else {
        let c0 = s.get_char(i);
        if (c0 as u32) < 50 {
            octet_ok = true;
        } else if c0 == '2' {
            let c1 = s.get_char(i + 1);
            if (c1 as u32) < 53 {
                octet_ok = true;
            } else if c1 == '5' {
                let c2 = s.get_char(i + 2);
                octet_ok = (c2 as u32) <= 53;
            } else {
                octet_ok = false;
            }
        } else {
            octet_ok = false;
        }
    }
    if !octet_ok {
        return false;
    }
    if parts == 1 {
        if i + run == s.unicode_len() {
            true
        } else if s.get_char(i + run) == ':' {
            let p = digit_run_at(s, i + run + 1);
            p >= 1 && i + run + 1 + p == s.unicode_len()
        } else {
            false
        }
    } else {
        if i + run < s.unicode_len() && s.get_char(i + run) == '.' {
            ipv4_parts_at(s, i + run + 1, parts - 1)
        } else {
            false
        }
    }
}

/// Whether `id` is an IPv4 literal, optionally with a `:port` suffix.
pub fn is_ipv4_str(id: &str) -> (r: bool)
    ensures
        r == spec_is_ipv4_str(id@),
{
    ipv4_parts_at(id, 0, 4)
}

fn ipv6_rest_at(s: &str, i: usize) -> (r: bool)
    requires
        i <= s@.len(),
    ensures
        r == spec_ipv6_rest(s@, i as int),
    decreases s@.len() - i,
{
    if i >= s.unicode_len() {
        return false;
    }
    if s.get_char(i) != ':' {
        return false;
    }
    let j: usize = if i + 1 < s.unicode_len() && s.get_char(i + 1) == ':' {
        i + 2
    } else {
        i + 1
    };
    let run = hex_run_at(s, j);
    if run < 1 || run > 4 {
        return false;
    }
    if j + run >= s.unicode_len() {
        return true;
    }
    ipv6_rest_at(s, j + run)
}

fn ipv6_body(s: &str) -> (r: bool)
    ensures
        r == spec_ipv6_body(s@),
{
    let run = hex_run_at(s, 0);
    if run < 1 || run > 4 {
        return false;
    }
    ipv6_rest_at(s, run)
}

/// Whether `id` is an IPv6 literal: bare groups, or bracketed with a port.
pub fn is_ipv6_str(id: &str) -> (r: bool)
    ensures
        r == spec_is_ipv6_str(id@),
{
    let n = id.unicode_len();
    if n > 0 && id.get_char(0) == '[' {
        let k = find_char(id, 0, ']');
        if k >= n {
            return false;
        }
        let body = id.substring_char(1, k);
        if !ipv6_body(body) {
            return false;
        }
        if !(k + 1 < n && id.get_char(k + 1) == ':') {
            return false;
        }
        let p = digit_run_at(id, k + 2);
        p >= 1 && k + 2 + p == n
    } else {
        ipv6_body(id)
    }
}

/// Whether `id` is an IP literal of either family.
pub fn is_ip_str(id: &str) -> (r: bool)
    ensures
        r == (spec_is_ipv4_str(id@) || spec_is_ipv6_str(id@)),
{
    is_ipv4_str(id) || is_ipv6_str(id)
}

/// The value a sequence of decimal digits denotes.
pub open spec fn dec_val(s: Seq<char>) -> int
    decreases s.len(),
{
    if s.len() == 0 {
        0
    } else {
        10 * dec_val(s.take(s.len() - 1)) + (s.last() as int - 48)
    }
}

/// Every character is a decimal digit.
pub open spec fn all_digits(s: Seq<char>) -> bool {
    forall|j: int| 0 <= j < s.len() ==> spec_is_digit(#[trigger] s[j])
}

/// What parsing a signed 32-bit decimal out of `t` yields, with 0 standing
/// in for anything unparsable: an optional sign, then one or more digits,
/// and a value within the type's range.
pub open spec fn spec_parse_i32(t: Seq<char>) -> int {
    let neg = t.len() > 0 && t[0] == '-';
    let ds = if t.len() > 0 && (t[0] == '-' || t[0] == '+') {
        t.skip(1)
    } else {
        t
    };
    if ds.len() >= 1 && all_digits(ds) {
        let v = dec_val(ds);
        if !neg && v <= 0x7fff_ffff {
            v
        } else if neg && v <= 0x8000_0000 {
            -v
        } else {
            0
        }
    } else {
        0
    }
}

/// Digit values stay below the saturation cap used while parsing.
proof fn lemma_dec_val_nonneg(s: Seq<char>)
    requires
        forall|j: int| 0 <= j < s.len() ==> spec_is_digit(#[trigger] s[j]),
    ensures
        dec_val(s) >= 0,
    decreases s.len(),
{
    if s.len() > 0 {
        assert(forall|j: int|
            0 <= j < s.len() - 1 ==> spec_is_digit(#[trigger] s.take(s.len() - 1)[j]));
        lemma_dec_val_nonneg(s.take(s.len() - 1));
    }
}

/// Parses digits at `from..to`, saturating at the cap `0x1_0000_0000`:
/// below the cap the value is exact, at or above it only that fact is kept.
fn dec_digits_value(t: &str, from: usize, to: usize) -> (r: u64)
    requires
        from <= to <= t@.len(),
        forall|j: int| from <= j < to ==> spec_is_digit(#[trigger] t@[j]),
    ensures
        dec_val(t@.subrange(from as int, to as int)) < 0x1_0000_0000 ==> r as int == dec_val(
            t@.subrange(from as int, to as int),
        ),
        dec_val(t@.subrange(from as int, to as int)) >= 0x1_0000_0000 ==> r >= 0x1_0000_0000,
{
    let mut acc: u64 = 0;
    let mut i: usize = from;
    proof {
        assert(t@.subrange(from as int, from as int) =~= Seq::<char>::empty());
    }
    while i < to
        invariant
            from <= i <= to <= t@.len(),
            forall|j: int| from <= j < to ==> spec_is_digit(#[trigger] t@[j]),
            acc <= 0x1_0000_0000,
            dec_val(t@.subrange(from as int, i as int)) < 0x1_0000_0000 ==> acc as int == dec_val(
                t@.subrange(from as int, i as int),
            ),
            dec_val(t@.subrange(from as int, i as int)) >= 0x1_0000_0000 ==> acc == 0x1_0000_0000,
        decreases to - i,
    {
        let ghost pre = t@.subrange(from as int, i as int);
        let c = t.get_char(i);
        let d: u64 = (c as u32) as u64 - 48;
        proof {
            let cur = t@.subrange(from as int, i as int + 1);
            assert(cur.take(cur.len() - 1) =~= pre);
            assert(cur.last() == t@[i as int]);
            lemma_dec_val_nonneg(pre);
        }
        if acc >= 0x1_0000_0000 {
            acc = 0x1_0000_0000;
        } else {
            acc = 10 * acc + d;
            if acc >= 0x1_0000_0000 {
                acc = 0x1_0000_0000;
            }
        }
        i += 1;
    }
    acc
}

/// Parses a signed 32-bit decimal out of `t`, as `spec_parse_i32` says; 0
/// stands in for anything unparsable.
pub fn parse_i32(t: &str) -> (r: i32)
    ensures
        r as int == spec_parse_i32(t@),
{
    let n = t.unicode_len();
    if n == 0 {
        return 0;
    }
    let c0 = t.get_char(0);
    let neg = c0 == '-';
    let from: usize = if c0 == '-' || c0 == '+' {
        1
    } else {
        0
    };
    if n - from < 1 {
        return 0;
    }
    let mut j = from;
    while j < n
        invariant
            from <= j <= n == t@.len(),
            n > 0,
            (from == 1) == (t@[0] == '-' || t@[0] == '+'),
            from <= 1,
            forall|k: int| from <= k < j ==> spec_is_digit(#[trigger] t@[k]),
        decreases n - j,
    {
        if !is_digit_char(t.get_char(j)) {
            proof {
                if from == 1 {
                    assert(t@.skip(1) =~= t@.subrange(1, t@.len() as int));
                    assert(t@.subrange(1, t@.len() as int)[j as int - 1] == t@[j as int]);
                    assert(!spec_is_digit(t@.skip(1)[j as int - 1]));
                    assert(!all_digits(t@.skip(1)));
                } else {
                    assert(!spec_is_digit(t@[j as int]));
                    assert(!all_digits(t@));
                }
                assert(spec_parse_i32(t@) == 0);
            }
            return 0;
        }
        j += 1;
    }
    let v = dec_digits_value(t, from, n);
    proof {
        let ds = if from == 1 {
            t@.skip(1)
        } else {
            t@
        };
        assert(ds =~= t@.subrange(from as int, n as int));
        assert(forall|k: int| 0 <= k < ds.len() ==> spec_is_digit(#[trigger] ds[k]));
        assert(all_digits(ds));
    }
    if !neg {
        if v <= 0x7fff_ffff {
            v as i32
        } else {
            0
        }
    } else {
        if v <= 0x8000_0000 {
            (-(v as i64)) as i32
        } else {
            0
        }
    }
}

/// The decimal digit character of a value below ten.
pub open spec fn digit_char(d: int) -> char {
    if d == 0 {
        '0'
    } else if d == 1 {
        '1'
    } else if d == 2 {
        '2'
    } else if d == 3 {
        '3'
    } else if d == 4 {
        '4'
    } else if d == 5 {
        '5'
    } else if d == 6 {
        '6'
    } else if d == 7 {
        '7'
    } else if d == 8 {
        '8'
    } else {
        '9'
    }
}

/// The decimal digits of a nonnegative value.
pub open spec fn spec_udec(n: int) -> Seq<char>
    decreases n,
{
    if n < 10 {
        seq![digit_char(n)]
    } else {
        spec_udec(n / 10).push(digit_char(n % 10))
    }
}

/// The decimal rendering of a value, with a leading minus when negative.
pub open spec fn spec_int_dec(v: int) -> Seq<char> {
    if v < 0 {
        seq!['-'] + spec_udec(-v)
    } else {
        spec_udec(v)
    }
}

/// Appends one decimal digit character.
fn push_digit(d: u64, out: &mut String)
    requires
        d < 10,
    ensures
        final(out)@ == old(out)@ + seq![digit_char(d as int)],
{
    proof {
        reveal_strlit("0");
        reveal_strlit("1");
        reveal_strlit("2");
        reveal_strlit("3");
        reveal_strlit("4");
        reveal_strlit("5");
        reveal_strlit("6");
        reveal_strlit("7");
        reveal_strlit("8");
        reveal_strlit("9");
    }
    if d == 0 {
        out.append("0");
        proof {
            assert(final(out)@ =~= old(out)@ + seq![digit_char(d as int)]);
        }
    } else if d == 1 {
        out.append("1");
        proof {
            assert(final(out)@ =~= old(out)@ + seq![digit_char(d as int)]);
        }
    } else if d == 2 {
        out.append("2");
        proof {
            assert(final(out)@ =~= old(out)@ + seq![digit_char(d as int)]);
        }
    } else if d == 3 {
        out.append("3");
        proof {
            assert(final(out)@ =~= old(out)@ + seq![digit_char(d as int)]);
        }
    } else if d == 4 {
        out.append("4");
        proof {
            assert(final(out)@ =~= old(out)@ + seq![digit_char(d as int)]);
        }
    } else if d == 5 {
        out.append("5");
        proof {
            assert(final(out)@ =~= old(out)@ + seq![digit_char(d as int)]);
        }
    } else if d == 6 {
        out.append("6");
        proof {
            assert(final(out)@ =~= old(out)@ + seq![digit_char(d as int)]);
        }
    } else if d == 7 {
        out.append("7");
        proof {
            assert(final(out)@ =~= old(out)@ + seq![digit_char(d as int)]);
        }
    } else if d == 8 {
        out.append("8");
        proof {
            assert(final(out)@ =~= old(out)@ + seq![digit_char(d as int)]);
        }
    } else {
        out.append("9");
        proof {
            assert(final(out)@ =~= old(out)@ + seq![digit_char(d as int)]);
        }
    }
}

/// Appends the decimal digits of `n`.
fn push_u64_dec(n: u64, out: &mut String)
    ensures
        final(out)@ == old(out)@ + spec_udec(n as int),
    decreases n,
{
    if n >= 10 {
        push_u64_dec(n / 10, out);
    }
    push_digit(n % 10, out);
    proof {
        if n < 10 {
            assert(n as int % 10 == n as int);
        }
    }
}

/// Appends the decimal rendering of `v`, sign included.
fn push_i64_dec(v: i64, out: &mut String)
    requires
        v > i64::MIN,
    ensures
        final(out)@ == old(out)@ + spec_int_dec(v as int),
{
    if v < 0 {
        proof {
            reveal_strlit("-");
        }
        out.append("-");
        proof {
            assert(out@ =~= old(out)@ + seq!['-']);
        }
        push_u64_dec((-v) as u64, out);
    } else {
        push_u64_dec(v as u64, out);
    }
}

/// Whether `c` occurs in `s`.
fn contains_char(s: &str, c: char) -> (r: bool)
    ensures
        r == s@.contains(c),
{
    let n = s.unicode_len();
    let k = find_char(s, 0, c);
    if k < n {
        assert(s@[k as int] == c);
        true
    } else {
        proof {
            lemma_find_none(s@, 0, c);
        }
        false
    }
}

/// Where `spec_find` reports no hit, the character is absent.
proof fn lemma_find_none(s: Seq<char>, i: int, c: char)
    requires
        0 <= i <= s.len(),
        spec_find(s, i, c) == s.len(),
    ensures
        forall|j: int| i <= j < s.len() ==> s[j] != c,
    decreases s.len() - i,
{
    if i < s.len() {
        lemma_find_none(s, i + 1, c);
    }
}

/// Index of the first `]:` at or after `i`, or the length when there is
/// none.
pub open spec fn spec_find_brk(s: Seq<char>, i: int) -> int
    decreases s.len() - i,
{
    if i < 0 {
        spec_find_brk(s, 0)
    } else if i + 2 > s.len() {
        s.len() as int
    } else if s[i] == ']' && s[i + 1] == ':' {
        i
    } else {
        spec_find_brk(s, i + 1)
    }
}

fn find_brk(s: &str, i: usize) -> (r: usize)
    requires
        i <= s@.len(),
    ensures
        r as int == spec_find_brk(s@, i as int),
        i <= r <= s@.len(),
        r < s@.len() ==> r as int + 2 <= s@.len() && s@[r as int] == ']' && s@[r as int + 1]
            == ':',
    decreases s@.len() - i,
{
    let n = s.unicode_len();
    if n < 2 || i > n - 2 {
        return n;
    }
    if s.get_char(i) == ']' && s.get_char(i + 1) == ':' {
        return i;
    }
    find_brk(s, i + 1)
}

/// The host with its port made explicit: a bare IPv6 literal is bracketed
/// and given the port, a host with no colon gets the port appended, and
/// everything already carrying a port (or otherwise unrecognized) stays as
/// it is.
pub open spec fn spec_check_port(host: Seq<char>, port: int) -> Seq<char> {
    if spec_is_ipv6_str(host) {
        if host.len() > 0 && host[0] == '[' {
            host
        } else {
            seq!['['] + host + seq![']', ':'] + spec_int_dec(port)
        }
    } else if !host.contains(':') {
        host + seq![':'] + spec_int_dec(port)
    } else {
        host
    }
}

/// As `spec_check_port` says.
pub fn check_port(host: &str, port: i32) -> (r: String)
    ensures
        r@ == spec_check_port(host@, port as int),
{
    proof {
        reveal_strlit("[");
        reveal_strlit("]:");
        reveal_strlit(":");
    }
    if is_ipv6_str(host) {
        if host.unicode_len() > 0 && host.get_char(0) == '[' {
            return host.to_owned();
        }
        let mut out = String::new();
        out.append("[");
        out.append(host);
        out.append("]:");
        push_i64_dec(port as i64, &mut out);
        proof {
            assert(out@ =~= spec_check_port(host@, port as int));
        }
        return out;
    }
    if !contains_char(host, ':') {
        let mut out = String::new();
        out.append(host);
        out.append(":");
        push_i64_dec(port as i64, &mut out);
        proof {
            assert(out@ =~= spec_check_port(host@, port as int));
        }
        return out;
    }
    host.to_owned()
}

/// The host with its port moved by `offset`: a bracketed IPv6 literal or a
/// single `host:port` pair with a positive port gets the shifted port
/// written back; everything else stays as it is.
pub open spec fn spec_increase_port(host: Seq<char>, offset: int) -> Seq<char> {
    if spec_is_ipv6_str(host) {
        if host.len() > 0 && host[0] == '[' {
            let p = spec_find_brk(host, 0);
            if p < host.len() && spec_find_brk(host, p + 2) >= host.len() {
                let port = spec_parse_i32(host.skip(p + 2));
                if port > 0 {
                    host.take(p) + seq![']', ':'] + spec_int_dec(port + offset)
                } else {
                    host
                }
            } else {
                host
            }
        } else {
            host
        }
    } else if host.contains(':') {
        let q = spec_find(host, 0, ':');
        if spec_find(host, q + 1, ':') >= host.len() {
            let port = spec_parse_i32(host.skip(q + 1));
            if port > 0 {
                host.take(q) + seq![':'] + spec_int_dec(port + offset)
            } else {
                host
            }
        } else {
            host
        }
    } else {
        host
    }
}

/// As `spec_increase_port` says.
pub fn increase_port(host: &str, offset: i32) -> (r: String)
    ensures
        r@ == spec_increase_port(host@, offset as int),
{
    proof {
        reveal_strlit("]:");
        reveal_strlit(":");
    }
    let n = host.unicode_len();
    if is_ipv6_str(host) {
        if n > 0 && host.get_char(0) == '[' {
            let p = find_brk(host, 0);
            if p < n && find_brk(host, p + 2) >= n {
                let tail = host.substring_char(p + 2, n);
                proof {
                    assert(tail@ =~= host@.skip(p as int + 2));
                }
                let port = parse_i32(tail);
                if port > 0 {
                    let mut out = String::new();
                    out.append(host.substring_char(0, p));
                    out.append("]:");
                    push_i64_dec(port as i64 + offset as i64, &mut out);
                    proof {
                        assert(out@ =~= spec_increase_port(host@, offset as int));
                    }
                    return out;
                }
            }
        }
        return host.to_owned();
    }
    let q = find_char(host, 0, ':');
    if q < n {
        proof {
            assert(host@[q as int] == ':');
            assert(host@.contains(':'));
        }
        if find_char(host, q + 1, ':') >= n {
            let tail = host.substring_char(q + 1, n);
            proof {
                assert(tail@ =~= host@.skip(q as int + 1));
            }
            let port = parse_i32(tail);
            if port > 0 {
                let mut out = String::new();
                out.append(host.substring_char(0, q));
                out.append(":");
                push_i64_dec(port as i64 + offset as i64, &mut out);
                proof {
                    assert(out@ =~= spec_increase_port(host@, offset as int));
                }
                return out;
            }
        }
        return host.to_owned();
    }
    proof {
        lemma_find_none(host@, 0, ':');
        assert(!host@.contains(':'));
    }
    host.to_owned()
}

/// An IPv4 literal rewritten for reachability from an IPv6-only host: the
/// address part gets the NAT64 resolver domain appended; anything else, or
/// any address when IPv4 connectivity exists, stays as it is.
pub open spec fn spec_ipv4_to_ipv6(addr: Seq<char>, ipv4: bool) -> Seq<char> {
    if !ipv4 && spec_is_ipv4_str(addr) {
        let q = spec_find(addr, 0, ':');
        addr.take(q) + seq!['.', 'n', 'i', 'p', '.', 'i', 'o'] + addr.skip(q)
    } else {
        addr
    }
}

/// As `spec_ipv4_to_ipv6` says.
pub fn ipv4_to_ipv6(addr: String, ipv4: bool) -> (r: String)
    ensures
        r@ == spec_ipv4_to_ipv6(addr@, ipv4),
{
    proof {
        reveal_strlit(".nip.io");
    }
    if !ipv4 && is_ipv4_str(addr.as_str()) {
        let n = addr.as_str().unicode_len();
        let q = find_char(addr.as_str(), 0, ':');
        let mut out = String::new();
        out.append(addr.as_str().substring_char(0, q));
        out.append(".nip.io");
        out.append(addr.as_str().substring_char(q, n));
        proof {
            assert(out@ =~= spec_ipv4_to_ipv6(addr@, ipv4));
        }
        return out;
    }
    addr
}

} // verus!
