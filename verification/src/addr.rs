//! The address value: a validated IP address, v4 or v6, immutable once
//! parsed and compared by value.
//!
//! The textual grammar accepted here is: four dot-separated decimal octets
//! (no leading zeros, each at most 255), or colon-separated groups of one
//! to four hexadecimal digits — eight of them, or fewer with one `::`
//! compression standing for the missing zero groups.

use crate::text::digit_val;
use crate::text::hex_val;
use crate::text::is_digit;
use crate::text::is_hex_digit;
use crate::text::lemma_split_on_len;
use crate::text::lemma_split_on_push;
use crate::text::split_on;
use vstd::prelude::*;
use vstd::string::StrSliceExecFns;
use vstd::string::StringExecFns;

verus! {

/// A validated network address. Equality is value equality on the numeric
/// components, nothing more.
#[derive(PartialEq, Eq, Structural, Clone, Copy, Debug)]
pub enum Address {
    /// Four octets of a dotted-quad address.
    V4 { a: u8, b: u8, c: u8, d: u8 },
    /// Eight 16-bit groups of a colon-separated address.
    V6 { g0: u16, g1: u16, g2: u16, g3: u16, g4: u16, g5: u16, g6: u16, g7: u16 },
}

pub open spec fn all_digits(s: Seq<char>) -> bool {
    forall|i: int| 0 <= i < s.len() ==> is_digit(#[trigger] s[i])
}

pub open spec fn all_hex_digits(s: Seq<char>) -> bool {
    forall|i: int| 0 <= i < s.len() ==> is_hex_digit(#[trigger] s[i])
}

/// The decimal value of a digit string, most significant digit first.
pub open spec fn dec_val(s: Seq<char>) -> int
    decreases s.len(),
{
    if s.len() == 0 {
        0
    } else {
        dec_val(s.drop_last()) * 10 + digit_val(s.last())
    }
}

/// The hexadecimal value of a hex-digit string, most significant first.
pub open spec fn hex_group_val(s: Seq<char>) -> int
    decreases s.len(),
{
    if s.len() == 0 {
        0
    } else {
        hex_group_val(s.drop_last()) * 16 + hex_val(s.last())
    }
}

/// A textual dotted-quad octet: one to three decimal digits, no leading
/// zero, value at most 255.
pub open spec fn is_octet_text(s: Seq<char>) -> bool {
    &&& 1 <= s.len() <= 3
    &&& all_digits(s)
    &&& dec_val(s) <= 255
    &&& (s.len() > 1 ==> s[0] != '0')
}

/// A textual address group: one to four hexadecimal digits.
pub open spec fn is_group_text(s: Seq<char>) -> bool {
    &&& 1 <= s.len() <= 4
    &&& all_hex_digits(s)
}

/// A dotted-quad address text: exactly four octet pieces.
pub open spec fn is_v4_text(s: Seq<char>) -> bool {
    let sp = split_on(s, '.');
    &&& sp.len() == 4
    &&& forall|k: int| 0 <= k < 4 ==> is_octet_text(#[trigger] sp[k])
}

/// A full-form colon-separated address: exactly eight hex groups, none
/// empty.
pub open spec fn v6_full_pieces(ps: Seq<Seq<char>>) -> bool {
    &&& ps.len() == 8
    &&& forall|k: int| 0 <= k < 8 ==> is_group_text(#[trigger] ps[k])
}

/// One compression strictly inside the text, as in `a::b`: a single empty
/// piece between hex groups, at most seven groups in all.
pub open spec fn v6_interior_pieces(ps: Seq<Seq<char>>, e: int) -> bool {
    &&& 0 < e < ps.len() - 1
    &&& ps[e].len() == 0
    &&& ps.len() <= 8
    &&& forall|k: int| 0 <= k < ps.len() && k != e ==> is_group_text(#[trigger] ps[k])
}

/// A compression opening the text, as in `::a`: two leading empty pieces,
/// then hex groups, at most seven of them.
pub open spec fn v6_leading_pieces(ps: Seq<Seq<char>>) -> bool {
    &&& 3 <= ps.len() <= 9
    &&& ps[0].len() == 0
    &&& ps[1].len() == 0
    &&& forall|k: int| 2 <= k < ps.len() ==> is_group_text(#[trigger] ps[k])
}

/// A compression closing the text, as in `a::`: hex groups, then two
/// trailing empty pieces.
pub open spec fn v6_trailing_pieces(ps: Seq<Seq<char>>) -> bool {
    &&& 3 <= ps.len() <= 9
    &&& ps[ps.len() - 1].len() == 0
    &&& ps[ps.len() - 2].len() == 0
    &&& forall|k: int| 0 <= k < ps.len() - 2 ==> is_group_text(#[trigger] ps[k])
}

/// The bare compression `::`: three empty pieces and nothing else.
pub open spec fn v6_all_empty_pieces(ps: Seq<Seq<char>>) -> bool {
    &&& ps.len() == 3
    &&& ps[0].len() == 0
    &&& ps[1].len() == 0
    &&& ps[2].len() == 0
}

/// A colon-separated address text: eight full hex groups, or at most
/// seven with one `::` compression standing for the missing zero groups.
pub open spec fn is_v6_pieces(ps: Seq<Seq<char>>) -> bool {
    ||| v6_full_pieces(ps)
    ||| exists|e: int| v6_interior_pieces(ps, e)
    ||| v6_leading_pieces(ps)
    ||| v6_trailing_pieces(ps)
    ||| v6_all_empty_pieces(ps)
}

pub open spec fn is_v6_text(s: Seq<char>) -> bool {
    is_v6_pieces(split_on(s, ':'))
}

pub open spec fn zero_vals(n: int) -> Seq<int> {
    Seq::new(n as nat, |i: int| 0)
}

/// The numeric values of a list of group pieces.
pub open spec fn piece_vals(ps: Seq<Seq<char>>) -> Seq<int> {
    ps.map_values(|p: Seq<char>| hex_group_val(p))
}

/// The eight group values a valid piece list denotes, the compression
/// expanded into zero groups.
pub open spec fn v6_vals(ps: Seq<Seq<char>>) -> Seq<int> {
    if v6_full_pieces(ps) {
        piece_vals(ps)
    } else if v6_all_empty_pieces(ps) {
        zero_vals(8)
    } else if v6_leading_pieces(ps) {
        zero_vals(8 - (ps.len() - 2)) + piece_vals(ps.skip(2))
    } else if v6_trailing_pieces(ps) {
        piece_vals(ps.take(ps.len() - 2)) + zero_vals(8 - (ps.len() - 2))
    } else {
        let e = choose|e: int| v6_interior_pieces(ps, e);
        piece_vals(ps.take(e)) + zero_vals(8 - (ps.len() - 1)) + piece_vals(ps.skip(e + 1))
    }
}

pub open spec fn v4_of_text(s: Seq<char>) -> Address {
    let sp = split_on(s, '.');
    Address::V4 {
        a: dec_val(sp[0]) as u8,
        b: dec_val(sp[1]) as u8,
        c: dec_val(sp[2]) as u8,
        d: dec_val(sp[3]) as u8,
    }
}

/// The address a valid piece list denotes.
pub open spec fn v6_addr_of_pieces(ps: Seq<Seq<char>>) -> Address {
    let vals = v6_vals(ps);
    Address::V6 {
        g0: vals[0] as u16,
        g1: vals[1] as u16,
        g2: vals[2] as u16,
        g3: vals[3] as u16,
        g4: vals[4] as u16,
        g5: vals[5] as u16,
        g6: vals[6] as u16,
        g7: vals[7] as u16,
    }
}

pub open spec fn v6_of_text(s: Seq<char>) -> Address {
    v6_addr_of_pieces(split_on(s, ':'))
}

/// At most one piece of a compressed interior shape is empty, so the
/// position of the compression is determined.
pub proof fn lemma_interior_unique(ps: Seq<Seq<char>>, e0: int)
    requires
        v6_interior_pieces(ps, e0),
    ensures
        (choose|e: int| v6_interior_pieces(ps, e)) == e0,
{
    let e = choose|e: int| v6_interior_pieces(ps, e);
    assert(v6_interior_pieces(ps, e));
    if e != e0 {
        assert(is_group_text(ps[e]));
        assert(false);
    }
}

/// The address a text denotes, if it denotes one: the dotted-quad reading
/// where the text has one, the colon-separated reading otherwise.
pub open spec fn address_of_text(s: Seq<char>) -> Option<Address> {
    if is_v4_text(s) {
        Some(v4_of_text(s))
    } else if is_v6_text(s) {
        Some(v6_of_text(s))
    } else {
        None
    }
}

pub proof fn lemma_dec_val_nonneg(s: Seq<char>)
    requires
        all_digits(s),
    ensures
        0 <= dec_val(s),
    decreases s.len(),
{
    if s.len() > 0 {
        assert(all_digits(s.drop_last()));
        lemma_dec_val_nonneg(s.drop_last());
    }
}

/// The value of a hex group is bounded by sixteen to the power of its
/// length, stated here only up to the four digits a group can carry.
pub proof fn lemma_hex_group_val_bound(s: Seq<char>)
    requires
        all_hex_digits(s),
        s.len() <= 4,
    ensures
        0 <= hex_group_val(s),
        s.len() <= 1 ==> hex_group_val(s) < 16,
        s.len() <= 2 ==> hex_group_val(s) < 256,
        s.len() <= 3 ==> hex_group_val(s) < 4096,
        hex_group_val(s) < 65536,
    decreases s.len(),
{
    if s.len() > 0 {
        assert(all_hex_digits(s.drop_last()));
        lemma_hex_group_val_bound(s.drop_last());
        assert(0 <= hex_val(s.last()) < 16);
    }
}

/// How octet-hood changes when one character is appended to a piece.
pub proof fn lemma_octet_push(s: Seq<char>, c: char)
    ensures
        is_octet_text(s.push(c)) == (if s.len() == 0 {
            is_digit(c)
        } else {
            is_octet_text(s) && is_digit(c) && s.len() < 3 && s[0] != '0' && dec_val(s) * 10
                + digit_val(c) <= 255
        }),
        dec_val(s.push(c)) == dec_val(s) * 10 + digit_val(c),
{
    let t = s.push(c);
    assert(t.drop_last() =~= s);
    assert(t.last() == c);
    assert(dec_val(t) == dec_val(s) * 10 + digit_val(c));
    if all_digits(t) {
        assert(all_digits(s));
        assert(is_digit(c));
    }
    if all_digits(s) && is_digit(c) {
        assert forall|i: int| 0 <= i < t.len() implies is_digit(#[trigger] t[i]) by {
            if i < s.len() {
                assert(t[i] == s[i]);
            }
        }
    }
    if s.len() > 0 {
        assert(t[0] == s[0]);
        if is_octet_text(t) {
            lemma_dec_val_nonneg(s);
            assert(dec_val(s) * 10 <= dec_val(t));
            assert(dec_val(s) <= 255);
        }
        if is_octet_text(s) && is_digit(c) && s.len() < 3 && s[0] != '0' && dec_val(s) * 10
            + digit_val(c) <= 255 {
            lemma_dec_val_nonneg(s);
            assert(is_octet_text(t));
        }
    }
}

/// How group-hood changes when one character is appended to a piece.
pub proof fn lemma_group_push(s: Seq<char>, c: char)
    ensures
        is_group_text(s.push(c)) == (if s.len() == 0 {
            is_hex_digit(c)
        } else {
            is_group_text(s) && is_hex_digit(c) && s.len() < 4
        }),
        hex_group_val(s.push(c)) == hex_group_val(s) * 16 + hex_val(c),
{
    let t = s.push(c);
    assert(t.drop_last() =~= s);
    assert(t.last() == c);
    if all_hex_digits(t) {
        assert(all_hex_digits(s));
        assert(is_hex_digit(c));
    }
    if all_hex_digits(s) && is_hex_digit(c) {
        assert forall|i: int| 0 <= i < t.len() implies is_hex_digit(#[trigger] t[i]) by {
            if i < s.len() {
                assert(t[i] == s[i]);
            }
        }
    }
}

/// Classifies a character as a decimal digit and gives its value.
fn char_digit(c: char) -> (r: Option<u8>)
    ensures
        match r {
            Some(d) => is_digit(c) && d as int == digit_val(c) && d < 10,
            None => !is_digit(c),
        },
{
    let u = c as u32;
    if 48 <= u && u <= 57 {
        Some((u - 48) as u8)
    } else {
        None
    }
}

/// Classifies a character as a hexadecimal digit and gives its value.
fn char_hex(c: char) -> (r: Option<u8>)
    ensures
        match r {
            Some(d) => is_hex_digit(c) && d as int == hex_val(c) && d < 16,
            None => !is_hex_digit(c),
        },
{
    let u = c as u32;
    if 48 <= u && u <= 57 {
        Some((u - 48) as u8)
    } else if 97 <= u && u <= 102 {
        Some((u - 87) as u8)
    } else if 65 <= u && u <= 70 {
        Some((u - 55) as u8)
    } else {
        None
    }
}

/// Reads a dotted-quad address text, and nothing else.
pub fn parse_v4(s: &str) -> (r: Option<Address>)
    ensures
        r == (if is_v4_text(s@) {
            Some(v4_of_text(s@))
        } else {
            None::<Address>
        }),
{
    let len = s.unicode_len();
    let mut i: usize = 0;
    let mut done: Vec<u8> = Vec::new();
    let mut parts_ok: bool = true;
    let mut cur_ok: bool = false;
    let mut cur_val: u8 = 0;
    let mut cur_zero: bool = false;
    let mut cur_len: usize = 0;
    proof {
        assert(s@.subrange(0, 0) =~= Seq::<char>::empty());
    }
    while i < len
        invariant
            i <= len,
            len == s@.len(),
            ({
                let sp = split_on(s@.subrange(0, i as int), '.');
                &&& sp.len() == done@.len() + 1
                &&& (parts_ok ==> forall|k: int|
                    0 <= k < done@.len() ==> is_octet_text(#[trigger] sp[k]) && done@[k] as int
                        == dec_val(sp[k]))
                &&& (!parts_ok ==> exists|k: int|
                    0 <= k < done@.len() && !is_octet_text(#[trigger] sp[k]))
                &&& cur_len == sp.last().len()
                &&& (cur_ok <==> is_octet_text(sp.last()))
                &&& (cur_ok ==> cur_val as int == dec_val(sp.last()))
                &&& (cur_zero <==> (sp.last().len() > 0 && sp.last()[0] == '0'))
            }),
            cur_len <= i,
        decreases len - i,
    {
        let c = s.get_char(i);
        let ghost pre = s@.subrange(0, i as int);
        let ghost pre1 = s@.subrange(0, i as int + 1);
        let ghost sp = split_on(pre, '.');
        let ghost sp1 = split_on(pre1, '.');
        proof {
            assert(pre1 =~= pre.push(s@[i as int]));
            lemma_split_on_push(pre, s@[i as int], '.');
            lemma_split_on_len(pre, '.');
        }
        if c == '.' {
            proof {
                assert(sp1 == sp.push(Seq::<char>::empty()));
                assert forall|k: int| 0 <= k < sp.len() implies #[trigger] sp1[k] == sp[k] by {}
                assert(sp1.last() =~= Seq::<char>::empty());
                if parts_ok && cur_ok {
                    assert(sp1[done@.len() as int] == sp.last());
                    assert forall|k: int|
                        0 <= k < done@.len() + 1 implies is_octet_text(#[trigger] sp1[k]) && done@.push(
                        cur_val,
                    )[k] as int == dec_val(sp1[k]) by {
                        if k < done@.len() {
                            assert(is_octet_text(sp[k]));
                        } else {
                            assert(sp1[k] == sp.last());
                        }
                    }
                } else if !parts_ok {
                    let k = choose|k: int| 0 <= k < done@.len() && !is_octet_text(#[trigger] sp[k]);
                    assert(!is_octet_text(sp1[k]));
                } else {
                    assert(sp1[done@.len() as int] == sp.last());
                    assert(!is_octet_text(sp1[done@.len() as int]));
                }
            }
            done.push(cur_val);
            parts_ok = parts_ok && cur_ok;
            cur_ok = false;
            cur_val = 0;
            cur_zero = false;
            cur_len = 0;
        } else {
            proof {
                lemma_octet_push(sp.last(), s@[i as int]);
                if cur_ok {
                    lemma_dec_val_nonneg(sp.last());
                }
                assert(sp1 == sp.update(sp.len() - 1, sp.last().push(s@[i as int])));
                assert(sp1.last() == sp.last().push(s@[i as int]));
                assert forall|k: int| 0 <= k < sp.len() - 1 implies #[trigger] sp1[k] == sp[k] by {}
                if parts_ok {
                    assert forall|k: int|
                        0 <= k < done@.len() implies is_octet_text(#[trigger] sp1[k]) && done@[k] as int
                        == dec_val(sp1[k]) by {
                        assert(sp1[k] == sp[k]);
                    }
                } else {
                    let k = choose|k: int| 0 <= k < done@.len() && !is_octet_text(#[trigger] sp[k]);
                    assert(!is_octet_text(sp1[k]));
                }
                assert(is_digit('0'));
                assert(digit_val('0') == 0);
            }
            match char_digit(c) {
                Some(d) => {
                    if cur_len == 0 {
                        cur_ok = true;
                        cur_val = d;
                        cur_zero = c == '0';
                        proof {
                            assert(sp.last().len() == 0);
                            assert(sp1.last() =~= seq![s@[i as int]]);
                            assert(sp1.last()[0] == s@[i as int]);
                        }
                    } else {
                        let cand: u32 = cur_val as u32 * 10 + d as u32;
                        let ok = cur_ok && cur_len < 3 && !cur_zero && cand <= 255;
                        cur_ok = ok;
                        cur_val = if ok {
                            cand as u8
                        } else {
                            0
                        };
                    }
                },
                None => {
                    cur_ok = false;
                    cur_val = 0;
                    if cur_len == 0 {
                        cur_zero = false;
                        proof {
                            assert(sp1.last()[0] == s@[i as int]);
                            assert(s@[i as int] != '0');
                        }
                    }
                },
            }
            cur_len += 1;
        }
        i += 1;
    }
    proof {
        assert(s@.subrange(0, len as int) =~= s@);
    }
    if done.len() == 3 && parts_ok && cur_ok {
        proof {
            let sp = split_on(s@, '.');
            assert(sp[3] == sp.last());
            assert forall|k: int| 0 <= k < 4 implies is_octet_text(#[trigger] sp[k]) by {}
            assert(is_v4_text(s@));
        }
        Some(Address::V4 { a: done[0], b: done[1], c: done[2], d: cur_val })
    } else {
        proof {
            let sp = split_on(s@, '.');
            if is_v4_text(s@) {
                assert(done@.len() == 3);
                assert(sp[3] == sp.last());
                assert(cur_ok);
                assert(parts_ok);
                assert(false);
            }
        }
        None
    }
}

/// Reads a colon-separated address text, full or `::`-compressed, and
/// nothing else.
pub fn parse_v6(s: &str) -> (r: Option<Address>)
    ensures
        r == (if is_v6_text(s@) {
            Some(v6_of_text(s@))
        } else {
            None::<Address>
        }),
{
    let len = s.unicode_len();
    let mut i: usize = 0;
    let mut vals: Vec<u16> = Vec::new();
    let mut empt: Vec<bool> = Vec::new();
    let mut bad: bool = false;
    let mut cur_ok: bool = false;
    let mut cur_val: u16 = 0;
    let mut cur_len: usize = 0;
    proof {
        assert(s@.subrange(0, 0) =~= Seq::<char>::empty());
    }
    while i < len
        invariant
            i <= len,
            len == s@.len(),
            empt@.len() == vals@.len(),
            ({
                let sp = split_on(s@.subrange(0, i as int), ':');
                &&& sp.len() == vals@.len() + 1
                &&& (forall|k: int|
                    0 <= k < vals@.len() ==> (empt@[k] <==> (#[trigger] sp[k]).len() == 0))
                &&& (!bad ==> forall|k: int|
                    0 <= k < vals@.len() ==> (sp[k].len() > 0 ==> is_group_text(#[trigger] sp[k])
                        && vals@[k] as int == hex_group_val(sp[k])))
                &&& (bad ==> exists|k: int|
                    0 <= k < vals@.len() && (#[trigger] sp[k]).len() > 0 && !is_group_text(sp[k]))
                &&& cur_len == sp.last().len()
                &&& (cur_ok <==> is_group_text(sp.last()))
                &&& (cur_ok ==> cur_val as int == hex_group_val(sp.last()))
            }),
            cur_len <= i,
        decreases len - i,
    {
        let c = s.get_char(i);
        let ghost pre = s@.subrange(0, i as int);
        let ghost pre1 = s@.subrange(0, i as int + 1);
        let ghost sp = split_on(pre, ':');
        let ghost sp1 = split_on(pre1, ':');
        proof {
            assert(pre1 =~= pre.push(s@[i as int]));
            lemma_split_on_push(pre, s@[i as int], ':');
            lemma_split_on_len(pre, ':');
        }
        if c == ':' {
            proof {
                assert(sp1 == sp.push(Seq::<char>::empty()));
                assert forall|k: int| 0 <= k < sp.len() implies #[trigger] sp1[k] == sp[k] by {}
                assert(sp1.last() =~= Seq::<char>::empty());
                assert(sp1[vals@.len() as int] == sp.last());
                if bad {
                    let k = choose|k: int|
                        0 <= k < vals@.len() && (#[trigger] sp[k]).len() > 0 && !is_group_text(
                            sp[k],
                        );
                    assert((sp1[k]).len() > 0 && !is_group_text(sp1[k]));
                }
            }
            let piece_bad = cur_len > 0 && !cur_ok;
            vals.push(cur_val);
            empt.push(cur_len == 0);
            bad = bad || piece_bad;
            cur_ok = false;
            cur_val = 0;
            cur_len = 0;
        } else {
            proof {
                lemma_group_push(sp.last(), s@[i as int]);
                if cur_ok {
                    lemma_hex_group_val_bound(sp.last());
                }
                assert(sp1 == sp.update(sp.len() - 1, sp.last().push(s@[i as int])));
                assert(sp1.last() == sp.last().push(s@[i as int]));
                assert forall|k: int| 0 <= k < sp.len() - 1 implies #[trigger] sp1[k] == sp[k] by {}
                if bad {
                    let k = choose|k: int|
                        0 <= k < vals@.len() && (#[trigger] sp[k]).len() > 0 && !is_group_text(
                            sp[k],
                        );
                    assert((sp1[k]).len() > 0 && !is_group_text(sp1[k]));
                }
            }
            match char_hex(c) {
                Some(d) => {
                    if cur_len == 0 {
                        cur_ok = true;
                        cur_val = d as u16;
                        proof {
                            assert(sp.last().len() == 0);
                            assert(sp1.last() =~= seq![s@[i as int]]);
                        }
                    } else {
                        let ok = cur_ok && cur_len < 4;
                        if ok {
                            let cand: u32 = cur_val as u32 * 16 + d as u32;
                            cur_val = cand as u16;
                        } else {
                            cur_val = 0;
                        }
                        cur_ok = ok;
                    }
                },
                None => {
                    cur_ok = false;
                    cur_val = 0;
                },
            }
            cur_len += 1;
        }
        i += 1;
    }
    proof {
        assert(s@.subrange(0, len as int) =~= s@);
    }
    let ghost sp = split_on(s@, ':');
    let piece_bad = cur_len > 0 && !cur_ok;
    proof {
        if bad {
            let k = choose|k: int|
                0 <= k < vals@.len() && (#[trigger] sp[k]).len() > 0 && !is_group_text(sp[k]);
            assert((sp[k]).len() > 0 && !is_group_text(sp[k]));
        }
        assert(sp[vals@.len() as int] == sp.last());
    }
    vals.push(cur_val);
    empt.push(cur_len == 0);
    bad = bad || piece_bad;
    assemble_v6(&vals, &empt, bad, Ghost(sp))
}

/// Classifies a scanned piece list — every piece known to be a hex group,
/// an empty piece, or neither — against the accepted shapes, and builds
/// the address for a valid one.
#[verifier::rlimit(100)]
fn assemble_v6(vals: &Vec<u16>, empt: &Vec<bool>, bad: bool, Ghost(ps): Ghost<Seq<Seq<char>>>) -> (r:
    Option<Address>)
    requires
        vals@.len() == ps.len(),
        empt@.len() == ps.len(),
        ps.len() >= 1,
        forall|k: int| 0 <= k < ps.len() ==> (empt@[k] <==> (#[trigger] ps[k]).len() == 0),
        !bad ==> forall|k: int|
            0 <= k < ps.len() ==> (ps[k].len() > 0 ==> is_group_text(#[trigger] ps[k]) && vals@[k]
                as int == hex_group_val(ps[k])),
        bad ==> exists|k: int|
            0 <= k < ps.len() && (#[trigger] ps[k]).len() > 0 && !is_group_text(ps[k]),
    ensures
        r == (if is_v6_pieces(ps) {
            Some(v6_addr_of_pieces(ps))
        } else {
            None::<Address>
        }),
{
    let n = vals.len();
    if bad {
        proof {
            let k0 = choose|k: int|
                0 <= k < ps.len() && (#[trigger] ps[k]).len() > 0 && !is_group_text(ps[k]);
            assert(!v6_full_pieces(ps));
            if exists|e: int| v6_interior_pieces(ps, e) {
                let e = choose|e: int| v6_interior_pieces(ps, e);
                assert(k0 != e && is_group_text(ps[k0]));
                assert(false);
            }
            assert(!v6_leading_pieces(ps));
            assert(!v6_trailing_pieces(ps));
            assert(!v6_all_empty_pieces(ps));
        }
        return None;
    }
    let mut count: usize = 0;
    let mut e1: usize = 0;
    let mut e2: usize = 0;
    let mut e3: usize = 0;
    let mut k: usize = 0;
    while k < n
        invariant
            k <= n,
            n == ps.len(),
            empt@.len() == n,
            count <= k,
            forall|j: int| 0 <= j < n ==> (empt@[j] <==> (#[trigger] ps[j]).len() == 0),
            count == 0 ==> forall|j: int| 0 <= j < k ==> (#[trigger] ps[j]).len() > 0,
            count == 1 ==> e1 < k && ps[e1 as int].len() == 0 && (forall|j: int|
                0 <= j < k && j != e1 ==> (#[trigger] ps[j]).len() > 0),
            count == 2 ==> e1 < e2 < k && ps[e1 as int].len() == 0 && ps[e2 as int].len() == 0 && (
            forall|j: int| 0 <= j < k && j != e1 && j != e2 ==> (#[trigger] ps[j]).len() > 0),
            count >= 3 ==> e1 < e2 < e3 < k && ps[e1 as int].len() == 0 && ps[e2 as int].len() == 0
                && ps[e3 as int].len() == 0,
        decreases n - k,
    {
        if empt[k] {
            if count == 0 {
                e1 = k;
            } else if count == 1 {
                e2 = k;
            } else if count == 2 {
                e3 = k;
            }
            if count < 3 {
                count += 1;
            }
        }
        k += 1;
    }
    let full_shape = count == 0 && n == 8;
    let interior_shape = count == 1 && 0 < e1 && e1 < n - 1 && n <= 8;
    let leading_shape = count == 2 && e1 == 0 && e2 == 1 && 3 <= n && n <= 9;
    let trailing_shape = count == 2 && e1 == n - 2 && e2 == n - 1 && 3 <= n && n <= 9;
    let empty_shape = count == 3 && n == 3;
    if !(full_shape || interior_shape || leading_shape || trailing_shape || empty_shape) {
        proof {
            if v6_full_pieces(ps) {
                assert(forall|j: int| 0 <= j < n ==> (#[trigger] ps[j]).len() > 0);
                assert(count == 0);
                assert(false);
            }
            if exists|e: int| v6_interior_pieces(ps, e) {
                let e = choose|e: int| v6_interior_pieces(ps, e);
                assert(forall|j: int|
                    0 <= j < n && j != e ==> (#[trigger] ps[j]).len() > 0);
                if count == 0 {
                    assert(ps[e].len() > 0);
                } else if count == 1 {
                    assert(e1 == e);
                } else {
                    assert(e1 != e || e2 != e);
                    if e1 != e {
                        assert(ps[e1 as int].len() > 0);
                    } else {
                        assert(ps[e2 as int].len() > 0);
                    }
                }
                assert(false);
            }
            if v6_leading_pieces(ps) {
                assert(forall|j: int| 2 <= j < n ==> (#[trigger] ps[j]).len() > 0);
                assert(ps[0].len() == 0 && ps[1].len() == 0);
                assert(count == 2 && e1 == 0 && e2 == 1);
                assert(false);
            }
            if v6_trailing_pieces(ps) {
                assert(forall|j: int| 0 <= j < n - 2 ==> (#[trigger] ps[j]).len() > 0);
                assert(ps[n - 2].len() == 0 && ps[n - 1].len() == 0);
                assert(count == 2 && e1 == n - 2 && e2 == n - 1);
                assert(false);
            }
            if v6_all_empty_pieces(ps) {
                assert(count == 3);
                assert(false);
            }
        }
        return None;
    }
    let (head_end, tail_start): (usize, usize) = if full_shape {
        (8, n)
    } else if interior_shape {
        (e1, e1 + 1)
    } else if leading_shape {
        (0, 2)
    } else if trailing_shape {
        (n - 2, n)
    } else {
        (0, 3)
    };
    proof {
        if full_shape {
            assert forall|j: int| 0 <= j < 8 implies is_group_text(#[trigger] ps[j]) by {
                assert(ps[j].len() > 0);
            }
            assert(v6_full_pieces(ps));
        } else if interior_shape {
            assert forall|j: int| 0 <= j < n && j != e1 implies is_group_text(
                #[trigger] ps[j],
            ) by {
                assert(ps[j].len() > 0);
            }
            assert(v6_interior_pieces(ps, e1 as int));
            assert(!v6_full_pieces(ps));
            assert(!v6_all_empty_pieces(ps));
            assert(!v6_leading_pieces(ps));
            assert(!v6_trailing_pieces(ps));
            lemma_interior_unique(ps, e1 as int);
        } else if leading_shape {
            assert forall|j: int| 2 <= j < n implies is_group_text(#[trigger] ps[j]) by {
                assert(ps[j].len() > 0);
            }
            assert(v6_leading_pieces(ps));
            assert(!v6_full_pieces(ps));
            if v6_all_empty_pieces(ps) {
                assert(ps[2].len() > 0);
                assert(false);
            }
        } else if trailing_shape {
            assert forall|j: int| 0 <= j < n - 2 implies is_group_text(#[trigger] ps[j]) by {
                assert(ps[j].len() > 0);
            }
            assert(v6_trailing_pieces(ps));
            assert(!v6_full_pieces(ps));
            assert(!v6_all_empty_pieces(ps));
            assert(!v6_leading_pieces(ps));
        } else {
            assert(v6_all_empty_pieces(ps));
            assert(!v6_full_pieces(ps));
        }
        assert(is_v6_pieces(ps));
    }
    let zeros = 8 - (head_end + (n - tail_start));
    let mut out: Vec<u16> = Vec::new();
    let mut k: usize = 0;
    while k < head_end
        invariant
            k <= head_end,
            head_end <= n,
            n == vals@.len(),
            out@.len() == k,
            forall|j: int| 0 <= j < k ==> out@[j] == vals@[j],
        decreases head_end - k,
    {
        out.push(vals[k]);
        k += 1;
    }
    let mut z: usize = 0;
    while z < zeros
        invariant
            z <= zeros,
            head_end <= n,
            n == vals@.len(),
            out@.len() == head_end + z,
            forall|j: int| 0 <= j < head_end ==> out@[j] == vals@[j],
            forall|j: int| head_end <= j < out@.len() ==> out@[j] == 0,
        decreases zeros - z,
    {
        out.push(0);
        z += 1;
    }
    let mut k: usize = tail_start;
    while k < n
        invariant
            tail_start <= k <= n,
            n == vals@.len(),
            out@.len() == head_end + zeros + (k - tail_start),
            forall|j: int| 0 <= j < head_end ==> out@[j] == vals@[j],
            forall|j: int| head_end <= j < head_end + zeros ==> out@[j] == 0,
            forall|j: int|
                head_end + zeros <= j < out@.len() ==> out@[j] == vals@[j - (head_end
                    + zeros) + tail_start],
        decreases n - k,
    {
        out.push(vals[k]);
        k += 1;
    }
    proof {
        let want = v6_vals(ps);
        assert(out@.len() == 8);
        assert(want.len() == 8);
        assert forall|j: int| 0 <= j < 8 implies out@[j] as int == want[j] by {
            if j < head_end {
                assert(out@[j] == vals@[j]);
                assert(ps[j].len() > 0);
            } else if j < head_end + zeros {
                assert(out@[j] == 0);
            } else {
                let src = j - (head_end + zeros) + tail_start;
                assert(out@[j] == vals@[src]);
                assert(ps[src].len() > 0);
            }
        }
        assert(out@.map_values(|v: u16| v as int) =~= want);
    }
    Some(
        Address::V6 {
            g0: out[0],
            g1: out[1],
            g2: out[2],
            g3: out[3],
            g4: out[4],
            g5: out[5],
            g6: out[6],
            g7: out[7],
        },
    )
}

/// Reads an address text of either family.
pub fn parse_address(s: &str) -> (r: Option<Address>)
    ensures
        r == address_of_text(s@),
{
    match parse_v4(s) {
        Some(a) => Some(a),
        None => parse_v6(s),
    }
}

/// The character that writes a digit value, lowercase for hex.
pub open spec fn digit_char(d: int) -> char {
    if d == 0 { '0' }
    else if d == 1 { '1' }
    else if d == 2 { '2' }
    else if d == 3 { '3' }
    else if d == 4 { '4' }
    else if d == 5 { '5' }
    else if d == 6 { '6' }
    else if d == 7 { '7' }
    else if d == 8 { '8' }
    else if d == 9 { '9' }
    else if d == 10 { 'a' }
    else if d == 11 { 'b' }
    else if d == 12 { 'c' }
    else if d == 13 { 'd' }
    else if d == 14 { 'e' }
    else { 'f' }
}

/// The decimal writing of a value, most significant digit first, no
/// leading zeros.
pub open spec fn dec_text(n: int) -> Seq<char>
    decreases n,
{
    if n <= 9 {
        seq![digit_char(n)]
    } else {
        dec_text(n / 10).push(digit_char(n % 10))
    }
}

/// The hexadecimal writing of a value, lowercase, no leading zeros.
pub open spec fn hex_text(n: int) -> Seq<char>
    decreases n,
{
    if n <= 15 {
        seq![digit_char(n)]
    } else {
        hex_text(n / 16).push(digit_char(n % 16))
    }
}

/// The canonical text of an address: dotted decimal for v4, eight
/// lowercase hex groups for v6.
pub open spec fn address_text(addr: Address) -> Seq<char> {
    match addr {
        Address::V4 { a, b, c, d } => dec_text(a as int) + seq!['.'] + dec_text(b as int)
            + seq!['.'] + dec_text(c as int) + seq!['.'] + dec_text(d as int),
        Address::V6 { g0, g1, g2, g3, g4, g5, g6, g7 } => hex_text(g0 as int) + seq![':']
            + hex_text(g1 as int) + seq![':'] + hex_text(g2 as int) + seq![':'] + hex_text(
            g3 as int,
        ) + seq![':'] + hex_text(g4 as int) + seq![':'] + hex_text(g5 as int) + seq![':']
            + hex_text(g6 as int) + seq![':'] + hex_text(g7 as int),
    }
}

/// No character of `s` is `c`.
pub open spec fn no_char(s: Seq<char>, c: char) -> bool {
    forall|i: int| 0 <= i < s.len() ==> s[i] != c
}

pub proof fn lemma_no_char_concat(x: Seq<char>, y: Seq<char>, c: char)
    requires
        no_char(x, c),
        no_char(y, c),
    ensures
        no_char(x + y, c),
{
    assert forall|i: int| 0 <= i < (x + y).len() implies (x + y)[i] != c by {
        if i >= x.len() {
            assert((x + y)[i] == y[i - x.len()]);
        }
    }
}

/// A text free of the separator splits into itself alone.
pub proof fn lemma_split_on_no_sep(s: Seq<char>, sep: char)
    requires
        no_char(s, sep),
    ensures
        split_on(s, sep) == seq![s],
    decreases s.len(),
{
    if s.len() > 0 {
        assert(no_char(s.drop_last(), sep));
        lemma_split_on_no_sep(s.drop_last(), sep);
        assert(s.last() != sep);
        assert(s.drop_last().push(s.last()) =~= s);
        assert(split_on(s, sep) =~~= seq![s]);
    } else {
        assert(s =~= Seq::<char>::empty());
        assert(split_on(s, sep) =~~= seq![s]);
    }
}

/// Splitting distributes over a separator between two texts.
pub proof fn lemma_split_on_concat(a: Seq<char>, b: Seq<char>, sep: char)
    ensures
        split_on(a + seq![sep] + b, sep) == split_on(a, sep) + split_on(b, sep),
    decreases b.len(),
{
    lemma_split_on_len(a, sep);
    if b.len() == 0 {
        assert(a + seq![sep] + b =~= a.push(sep));
        lemma_split_on_push(a, sep, sep);
        assert(split_on(b, sep) == seq![Seq::<char>::empty()]);
        assert(split_on(a, sep).push(Seq::<char>::empty()) =~= split_on(a, sep) + split_on(
            b,
            sep,
        ));
    } else {
        let b0 = b.drop_last();
        let c = b.last();
        lemma_split_on_concat(a, b0, sep);
        lemma_split_on_len(b0, sep);
        let whole0 = a + seq![sep] + b0;
        assert(a + seq![sep] + b =~= whole0.push(c));
        lemma_split_on_push(whole0, c, sep);
        assert(b0.push(c) =~= b);
        lemma_split_on_push(b0, c, sep);
        let sa = split_on(a, sep);
        let s0 = split_on(b0, sep);
        if c == sep {
            assert((sa + s0).push(Seq::<char>::empty()) =~= sa + s0.push(Seq::<char>::empty()));
        } else {
            assert((sa + s0).last() == s0.last());
            assert((sa + s0).update(sa.len() + s0.len() - 1, s0.last().push(c)) =~= sa + s0.update(
                s0.len() - 1,
                s0.last().push(c),
            ));
        }
    }
}

/// One assembly step: a separator-free piece, a separator, and a text
/// whose split is already known.
proof fn lemma_split_cons(t: Seq<char>, rest: Seq<char>, sep: char)
    requires
        no_char(t, sep),
    ensures
        split_on(t + seq![sep] + rest, sep) == seq![t] + split_on(rest, sep),
{
    lemma_split_on_concat(t, rest, sep);
    lemma_split_on_no_sep(t, sep);
}

/// The decimal writing of a value reads back as that value: digits only,
/// no leading zero, and a length bounded by the value's size.
pub proof fn lemma_dec_text_value(n: int)
    requires
        0 <= n,
    ensures
        dec_text(n).len() >= 1,
        all_digits(dec_text(n)),
        dec_val(dec_text(n)) == n,
        n >= 1 ==> dec_text(n)[0] != '0',
        n <= 9 ==> dec_text(n).len() == 1,
        n <= 99 ==> dec_text(n).len() <= 2,
        n <= 999 ==> dec_text(n).len() <= 3,
    decreases n,
{
    if n <= 9 {
        let t = dec_text(n);
        assert(t == seq![digit_char(n)]);
        assert(is_digit(digit_char(n)));
        assert(digit_val(digit_char(n)) == n);
        assert(t.drop_last() =~= Seq::<char>::empty());
        assert(t.last() == digit_char(n));
        assert(dec_val(Seq::<char>::empty()) == 0);
        assert(dec_val(t) == dec_val(t.drop_last()) * 10 + digit_val(t.last()));
        assert(dec_val(t) == n);
    } else {
        lemma_dec_text_value(n / 10);
        let t0 = dec_text(n / 10);
        let c = digit_char(n % 10);
        let t = t0.push(c);
        assert(is_digit(c));
        assert(digit_val(c) == n % 10);
        assert(t.drop_last() =~= t0);
        assert(dec_val(t) == dec_val(t0) * 10 + (n % 10));
        assert forall|i: int| 0 <= i < t.len() implies is_digit(#[trigger] t[i]) by {
            if i < t0.len() {
                assert(t[i] == t0[i]);
            }
        }
        assert(t[0] == t0[0]);
    }
}

/// The hexadecimal writing of a value reads back as that value.
pub proof fn lemma_hex_text_value(n: int)
    requires
        0 <= n,
    ensures
        hex_text(n).len() >= 1,
        all_hex_digits(hex_text(n)),
        hex_group_val(hex_text(n)) == n,
        n <= 15 ==> hex_text(n).len() == 1,
        n <= 255 ==> hex_text(n).len() <= 2,
        n <= 4095 ==> hex_text(n).len() <= 3,
        n <= 65535 ==> hex_text(n).len() <= 4,
    decreases n,
{
    if n <= 15 {
        let t = hex_text(n);
        assert(t == seq![digit_char(n)]);
        assert(is_hex_digit(digit_char(n)));
        assert(hex_val(digit_char(n)) == n);
        assert(t.drop_last() =~= Seq::<char>::empty());
        assert(t.last() == digit_char(n));
        assert(hex_group_val(Seq::<char>::empty()) == 0);
        assert(hex_group_val(t) == hex_group_val(t.drop_last()) * 16 + hex_val(t.last()));
        assert(hex_group_val(t) == n);
    } else {
        lemma_hex_text_value(n / 16);
        let t0 = hex_text(n / 16);
        let c = digit_char(n % 16);
        let t = t0.push(c);
        assert(is_hex_digit(c));
        assert(hex_val(c) == n % 16);
        assert(t.drop_last() =~= t0);
        assert(hex_group_val(t) == hex_group_val(t0) * 16 + (n % 16));
        assert forall|i: int| 0 <= i < t.len() implies is_hex_digit(#[trigger] t[i]) by {
            if i < t0.len() {
                assert(t[i] == t0[i]);
            }
        }
    }
}

pub proof fn lemma_digits_have_no_dot(s: Seq<char>)
    requires
        all_digits(s),
    ensures
        no_char(s, '.'),
{
    assert forall|i: int| 0 <= i < s.len() implies s[i] != '.' by {
        assert(is_digit(s[i]));
    }
}

pub proof fn lemma_hex_digits_have_no_dot(s: Seq<char>)
    requires
        all_hex_digits(s),
    ensures
        no_char(s, '.'),
{
    assert forall|i: int| 0 <= i < s.len() implies s[i] != '.' by {
        assert(is_hex_digit(s[i]));
    }
}

#[verifier::rlimit(60)]
proof fn lemma_round_trip_v4(addr: Address)
    requires
        addr is V4,
    ensures
        is_v4_text(address_text(addr)),
        v4_of_text(address_text(addr)) == addr,
{
    let text = address_text(addr);
    match addr {
        Address::V4 { a, b, c, d } => {
            let ta = dec_text(a as int);
            let tb = dec_text(b as int);
            let tc = dec_text(c as int);
            let td = dec_text(d as int);
            lemma_dec_text_value(a as int);
            lemma_dec_text_value(b as int);
            lemma_dec_text_value(c as int);
            lemma_dec_text_value(d as int);
            let dot = seq!['.'];
            let tail2 = tc + dot + td;
            let tail1 = tb + dot + tail2;
            assert(text =~= ta + dot + tail1);
            lemma_split_on_concat(ta, tail1, '.');
            lemma_split_on_concat(tb, tail2, '.');
            lemma_split_on_concat(tc, td, '.');
            lemma_digits_have_no_dot(ta);
            lemma_digits_have_no_dot(tb);
            lemma_digits_have_no_dot(tc);
            lemma_digits_have_no_dot(td);
            lemma_split_on_no_sep(ta, '.');
            lemma_split_on_no_sep(tb, '.');
            lemma_split_on_no_sep(tc, '.');
            lemma_split_on_no_sep(td, '.');
            let sp = split_on(text, '.');
            assert(sp =~~= seq![ta, tb, tc, td]);
            assert(is_octet_text(ta));
            assert(is_octet_text(tb));
            assert(is_octet_text(tc));
            assert(is_octet_text(td));
            assert forall|k: int| 0 <= k < 4 implies is_octet_text(#[trigger] sp[k]) by {
                if k == 0 {
                    assert(sp[k] == ta);
                } else if k == 1 {
                    assert(sp[k] == tb);
                } else if k == 2 {
                    assert(sp[k] == tc);
                } else {
                    assert(sp[k] == td);
                }
            }
            assert(is_v4_text(text));
            assert(v4_of_text(text) == addr);
        },
        _ => {},
    }
}

#[verifier::rlimit(100)]
proof fn lemma_round_trip_v6(addr: Address)
    requires
        addr is V6,
    ensures
        !is_v4_text(address_text(addr)),
        is_v6_text(address_text(addr)),
        v6_of_text(address_text(addr)) == addr,
{
    let text = address_text(addr);
    match addr {
        Address::V6 { g0, g1, g2, g3, g4, g5, g6, g7 } => {
            let t0 = hex_text(g0 as int);
            let t1 = hex_text(g1 as int);
            let t2 = hex_text(g2 as int);
            let t3 = hex_text(g3 as int);
            let t4 = hex_text(g4 as int);
            let t5 = hex_text(g5 as int);
            let t6 = hex_text(g6 as int);
            let t7 = hex_text(g7 as int);
            lemma_hex_text_value(g0 as int);
            lemma_hex_text_value(g1 as int);
            lemma_hex_text_value(g2 as int);
            lemma_hex_text_value(g3 as int);
            lemma_hex_text_value(g4 as int);
            lemma_hex_text_value(g5 as int);
            lemma_hex_text_value(g6 as int);
            lemma_hex_text_value(g7 as int);
            let col = seq![':'];
            let r6 = t6 + col + t7;
            let r5 = t5 + col + r6;
            let r4 = t4 + col + r5;
            let r3 = t3 + col + r4;
            let r2 = t2 + col + r3;
            let r1 = t1 + col + r2;
            assert(text =~= t0 + col + r1);
            lemma_split_on_no_sep(t7, ':');
            lemma_split_cons(t6, t7, ':');
            assert(split_on(r6, ':') =~~= seq![t6, t7]);
            lemma_split_cons(t5, r6, ':');
            assert(split_on(r5, ':') =~~= seq![t5, t6, t7]);
            lemma_split_cons(t4, r5, ':');
            assert(split_on(r4, ':') =~~= seq![t4, t5, t6, t7]);
            lemma_split_cons(t3, r4, ':');
            assert(split_on(r3, ':') =~~= seq![t3, t4, t5, t6, t7]);
            lemma_split_cons(t2, r3, ':');
            assert(split_on(r2, ':') =~~= seq![t2, t3, t4, t5, t6, t7]);
            lemma_split_cons(t1, r2, ':');
            assert(split_on(r1, ':') =~~= seq![t1, t2, t3, t4, t5, t6, t7]);
            lemma_split_cons(t0, r1, ':');
            let sp = split_on(text, ':');
            assert(sp =~~= seq![t0, t1, t2, t3, t4, t5, t6, t7]);
            assert forall|k: int| 0 <= k < 8 implies is_group_text(#[trigger] sp[k]) by {
                assert(sp[k] == seq![t0, t1, t2, t3, t4, t5, t6, t7][k]);
            }
            assert(is_v6_text(text));
            assert(v6_of_text(text) == addr);
            lemma_v6_text_has_no_dot(addr);
            lemma_split_on_no_sep(text, '.');
            assert(split_on(text, '.').len() == 1);
            assert(!is_v4_text(text));
        },
        _ => {},
    }
}

/// No piece of a rendered colon-separated address carries a dot, so the
/// dotted-quad reading can never apply to it.
#[verifier::rlimit(80)]
proof fn lemma_v6_text_has_no_dot(addr: Address)
    requires
        addr is V6,
    ensures
        no_char(address_text(addr), '.'),
{
    let text = address_text(addr);
    match addr {
        Address::V6 { g0, g1, g2, g3, g4, g5, g6, g7 } => {
            let t0 = hex_text(g0 as int);
            let t1 = hex_text(g1 as int);
            let t2 = hex_text(g2 as int);
            let t3 = hex_text(g3 as int);
            let t4 = hex_text(g4 as int);
            let t5 = hex_text(g5 as int);
            let t6 = hex_text(g6 as int);
            let t7 = hex_text(g7 as int);
            lemma_hex_text_value(g0 as int);
            lemma_hex_text_value(g1 as int);
            lemma_hex_text_value(g2 as int);
            lemma_hex_text_value(g3 as int);
            lemma_hex_text_value(g4 as int);
            lemma_hex_text_value(g5 as int);
            lemma_hex_text_value(g6 as int);
            lemma_hex_text_value(g7 as int);
            let col = seq![':'];
            let r6 = t6 + col + t7;
            let r5 = t5 + col + r6;
            let r4 = t4 + col + r5;
            let r3 = t3 + col + r4;
            let r2 = t2 + col + r3;
            let r1 = t1 + col + r2;
            assert(text =~= t0 + col + r1);
            lemma_hex_digits_have_no_dot(t0);
            lemma_hex_digits_have_no_dot(t1);
            lemma_hex_digits_have_no_dot(t2);
            lemma_hex_digits_have_no_dot(t3);
            lemma_hex_digits_have_no_dot(t4);
            lemma_hex_digits_have_no_dot(t5);
            lemma_hex_digits_have_no_dot(t6);
            lemma_hex_digits_have_no_dot(t7);
            assert(no_char(col, '.'));
            lemma_no_char_concat(t6, col, '.');
            lemma_no_char_concat(t6 + col, t7, '.');
            assert(no_char(r6, '.'));
            lemma_no_char_concat(t5, col, '.');
            lemma_no_char_concat(t5 + col, r6, '.');
            assert(no_char(r5, '.'));
            lemma_no_char_concat(t4, col, '.');
            lemma_no_char_concat(t4 + col, r5, '.');
            assert(no_char(r4, '.'));
            lemma_no_char_concat(t3, col, '.');
            lemma_no_char_concat(t3 + col, r4, '.');
            assert(no_char(r3, '.'));
            lemma_no_char_concat(t2, col, '.');
            lemma_no_char_concat(t2 + col, r3, '.');
            assert(no_char(r2, '.'));
            lemma_no_char_concat(t1, col, '.');
            lemma_no_char_concat(t1 + col, r2, '.');
            assert(no_char(r1, '.'));
            lemma_no_char_concat(t0, col, '.');
            lemma_no_char_concat(t0 + col, r1, '.');
            assert(no_char(text, '.'));
        },
        _ => {},
    }
}

/// Rendering an address and reading the text back yields the same address:
/// the writer and the reader agree on one grammar.
pub proof fn lemma_render_parse_round_trip(addr: Address)
    ensures
        address_of_text(address_text(addr)) == Some(addr),
{
    match addr {
        Address::V4 { .. } => {
            lemma_round_trip_v4(addr);
        },
        Address::V6 { .. } => {
            lemma_round_trip_v6(addr);
        },
    }
}

fn digit_str(d: u8) -> (r: &'static str)
    requires
        d < 16,
    ensures
        r@ == seq![digit_char(d as int)],
{
    proof {
        reveal_strlit("0");
        reveal_strlit("1");
        reveal_strlit("2");
        reveal_strlit("3");
        reveal_strlit("4");
        reveal_strlit("5");
        reveal_strlit("6");
        reveal_strlit("7");
        reveal_strlit("8");
        reveal_strlit("9");
        reveal_strlit("a");
        reveal_strlit("b");
        reveal_strlit("c");
        reveal_strlit("d");
        reveal_strlit("e");
        reveal_strlit("f");
    }
    let r = match d {
        0 => "0",
        1 => "1",
        2 => "2",
        3 => "3",
        4 => "4",
        5 => "5",
        6 => "6",
        7 => "7",
        8 => "8",
        9 => "9",
        10 => "a",
        11 => "b",
        12 => "c",
        13 => "d",
        14 => "e",
        _ => "f",
    };
    proof {
        assert(r@ =~= seq![digit_char(d as int)]);
    }
    r
}

fn push_dec(out: &mut String, n: u8)
    ensures
        final(out)@ == old(out)@ + dec_text(n as int),
    decreases n,
{
    if n <= 9 {
        out.append(digit_str(n));
        proof {
            assert(out@ =~= old(out)@ + dec_text(n as int));
        }
    } else {
        push_dec(out, n / 10);
        out.append(digit_str(n % 10));
        proof {
            assert(out@ =~= old(out)@ + dec_text(n as int));
        }
    }
}

fn push_hex(out: &mut String, n: u16)
    ensures
        final(out)@ == old(out)@ + hex_text(n as int),
    decreases n,
{
    if n <= 15 {
        out.append(digit_str(n as u8));
        proof {
            assert(out@ =~= old(out)@ + hex_text(n as int));
        }
    } else {
        push_hex(out, n / 16);
        out.append(digit_str((n % 16) as u8));
        proof {
            assert(out@ =~= old(out)@ + hex_text(n as int));
        }
    }
}

/// Writes an address in its canonical text.
pub fn render_address(addr: &Address) -> (r: String)
    ensures
        r@ == address_text(*addr),
{
    proof {
        reveal_strlit(".");
        reveal_strlit(":");
    }
    let mut out = String::new();
    match addr {
        Address::V4 { a, b, c, d } => {
            push_dec(&mut out, *a);
            out.append(".");
            push_dec(&mut out, *b);
            out.append(".");
            push_dec(&mut out, *c);
            out.append(".");
            push_dec(&mut out, *d);
            proof {
                assert(out@ =~= address_text(*addr));
            }
        },
        Address::V6 { g0, g1, g2, g3, g4, g5, g6, g7 } => {
            push_hex(&mut out, *g0);
            out.append(":");
            push_hex(&mut out, *g1);
            out.append(":");
            push_hex(&mut out, *g2);
            out.append(":");
            push_hex(&mut out, *g3);
            out.append(":");
            push_hex(&mut out, *g4);
            out.append(":");
            push_hex(&mut out, *g5);
            out.append(":");
            push_hex(&mut out, *g6);
            out.append(":");
            push_hex(&mut out, *g7);
            proof {
                assert(out@ =~= address_text(*addr));
            }
        },
    }
    out
}

} // verus!
