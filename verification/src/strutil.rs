//! Character-level string utilities the zone-file grammar is built on:
//! splitting on a separator, joining name labels, and decimal number parsing.

use vstd::prelude::*;

verus! {

use vstd::string::StrSliceExecFns;
use vstd::string::StringExecFns;

/// Splitting `t` on `sep`, with `cur` the piece accumulated so far.
pub open spec fn split_acc(t: Seq<char>, sep: char, cur: Seq<char>) -> Seq<Seq<char>>
    decreases t.len(),
{
    if t.len() == 0 {
        seq![cur]
    } else if t[0] == sep {
        seq![cur] + split_acc(t.drop_first(), sep, Seq::empty())
    } else {
        split_acc(t.drop_first(), sep, cur.push(t[0]))
    }
}

/// The pieces of `t` between occurrences of `sep`.
pub open spec fn spec_split(t: Seq<char>, sep: char) -> Seq<Seq<char>> {
    split_acc(t, sep, Seq::empty())
}

/// The pieces joined back with `sep` between them.
pub open spec fn spec_join(parts: Seq<Seq<char>>, sep: char) -> Seq<char>
    decreases parts.len(),
{
    if parts.len() == 0 {
        Seq::empty()
    } else if parts.len() == 1 {
        parts[0]
    } else {
        parts[0] + seq![sep] + spec_join(parts.drop_first(), sep)
    }
}

pub proof fn lemma_join_push(parts: Seq<Seq<char>>, sep: char, x: Seq<char>)
    ensures
        spec_join(parts.push(x), sep) == if parts.len() == 0 {
            x
        } else {
            spec_join(parts, sep) + seq![sep] + x
        },
    decreases parts.len(),
{
    if parts.len() == 0 {
        assert(parts.push(x).len() == 1);
        assert(parts.push(x)[0] == x);
    } else if parts.len() == 1 {
        assert(parts.push(x).drop_first() =~= seq![x]);
        assert(parts.push(x)[0] == parts[0]);
        assert(seq![x].len() == 1);
        assert(spec_join(seq![x], sep) == x);
        assert(spec_join(parts.push(x), sep) == parts[0] + seq![sep] + x);
        assert(spec_join(parts, sep) == parts[0]);
    } else {
        assert(parts.push(x).drop_first() =~= parts.drop_first().push(x));
        lemma_join_push(parts.drop_first(), sep, x);
        assert(spec_join(parts.push(x), sep) == parts.push(x)[0] + seq![sep] + spec_join(
            parts.drop_first().push(x),
            sep,
        ));
        assert(parts.push(x)[0] == parts[0]);
        assert(parts[0] + seq![sep] + (spec_join(parts.drop_first(), sep) + seq![sep] + x) =~= (
        parts[0] + seq![sep] + spec_join(parts.drop_first(), sep)) + seq![sep] + x);
    }
}

/// The views of a vector of strings.
pub open spec fn views_of(v: Seq<String>) -> Seq<Seq<char>> {
    v.map_values(|p: String| p@)
}

/// Split `s` at every occurrence of `sep`, as the grammar splits a file into
/// lines and a line into fields.
pub fn split_char(s: &str, sep: char) -> (parts: Vec<String>)
    ensures
        views_of(parts@) == spec_split(s@, sep),
        parts@.len() >= 1,
{
    let n: usize = s.unicode_len();
    let mut parts: Vec<String> = Vec::new();
    let mut start: usize = 0;
    let mut i: usize = 0;
    proof {
        assert(s@.skip(0) =~= s@);
        assert(s@.subrange(0, 0) =~= Seq::<char>::empty());
        assert(views_of(parts@) =~= Seq::<Seq<char>>::empty());
        assert(views_of(parts@) + split_acc(s@, sep, Seq::empty()) =~= split_acc(
            s@,
            sep,
            Seq::empty(),
        ));
    }
    while i < n
        invariant
            0 <= start <= i <= n,
            n == s@.len(),
            views_of(parts@) + split_acc(s@.skip(i as int), sep, s@.subrange(start as int, i as int))
                =~= spec_split(s@, sep),
        decreases n - i,
    {
        let ghost rem = s@.skip(i as int);
        let ghost cur = s@.subrange(start as int, i as int);
        proof {
            assert(rem.len() > 0);
            assert(rem[0] == s@[i as int]);
            assert(rem.drop_first() =~= s@.skip(i as int + 1));
        }
        let c = s.get_char(i);
        if c == sep {
            let piece = s.substring_char(start, i).to_owned();
            proof {
                assert(piece@ == cur);
                assert(views_of(parts@.push(piece)) =~= views_of(parts@).push(piece@)) by {
                    parts@.lemma_push_map_commute(|p: String| p@, piece);
                }
                assert(split_acc(rem, sep, cur) == seq![cur] + split_acc(
                    s@.skip(i as int + 1),
                    sep,
                    Seq::empty(),
                ));
                assert(s@.subrange(i as int + 1, i as int + 1) =~= Seq::<char>::empty());
                assert(views_of(parts@.push(piece)) + split_acc(
                    s@.skip(i as int + 1),
                    sep,
                    s@.subrange(i as int + 1, i as int + 1),
                ) =~= views_of(parts@) + split_acc(rem, sep, cur));
            }
            parts.push(piece);
            start = i + 1;
        } else {
            proof {
                assert(split_acc(rem, sep, cur) == split_acc(
                    s@.skip(i as int + 1),
                    sep,
                    cur.push(s@[i as int]),
                ));
                assert(cur.push(s@[i as int]) =~= s@.subrange(start as int, i as int + 1));
            }
        }
        i = i + 1;
    }
    let last = s.substring_char(start, n).to_owned();
    proof {
        let cur = s@.subrange(start as int, n as int);
        assert(s@.skip(n as int) =~= Seq::<char>::empty());
        assert(split_acc(s@.skip(n as int), sep, cur) == seq![cur]);
        assert(views_of(parts@.push(last)) =~= views_of(parts@).push(last@)) by {
            parts@.lemma_push_map_commute(|p: String| p@, last);
        }
        assert(views_of(parts@) + seq![cur] =~= views_of(parts@).push(cur));
    }
    parts.push(last);
    proof {
        assert(views_of(parts@) =~= spec_split(s@, sep));
    }
    parts
}

/// Join label strings back with `'.'` between them, undoing a split on `'.'`.
pub fn join_dot(parts: &Vec<String>) -> (r: String)
    ensures
        r@ == spec_join(views_of(parts@), '.'),
{
    let mut r = String::new();
    let mut i: usize = 0;
    proof {
        reveal_strlit(".");
        assert("."@ =~= seq!['.']);
    }
    while i < parts.len()
        invariant
            0 <= i <= parts@.len(),
            r@ == spec_join(views_of(parts@).take(i as int), '.'),
            "."@ =~= seq!['.'],
        decreases parts@.len() - i,
    {
        let ghost pv = views_of(parts@);
        if i > 0 {
            r.append(".");
        }
        r.append(parts[i].as_str());
        proof {
            assert(pv.take(i as int).push(pv[i as int]) =~= pv.take(i as int + 1));
            lemma_join_push(pv.take(i as int), '.', pv[i as int]);
            if i == 0 {
                assert(pv.take(0).len() == 0);
                assert(r@ =~= pv[0]);
            } else {
                assert(r@ =~= spec_join(pv.take(i as int), '.') + seq!['.'] + pv[i as int]);
            }
        }
        i = i + 1;
    }
    proof {
        assert(views_of(parts@).take(parts@.len() as int) =~= views_of(parts@));
    }
    r
}

/// A decimal digit.
pub open spec fn is_digit(c: char) -> bool {
    '0' <= c && c <= '9'
}

pub open spec fn digit_val(c: char) -> nat {
    (c as nat - '0' as nat) as nat
}

/// Every character of `s` is a decimal digit.
pub open spec fn all_digits(s: Seq<char>) -> bool {
    forall|i: int| 0 <= i < s.len() ==> is_digit(#[trigger] s[i])
}

/// The value of `s` read as a decimal numeral.
pub open spec fn digits_val(s: Seq<char>) -> nat
    decreases s.len(),
{
    if s.len() == 0 {
        0
    } else {
        digits_val(s.drop_last()) * 10 + digit_val(s.last())
    }
}

/// `s` is a numeral that fits in a `u32`: the shape the grammar's numeric
/// fields must take after variable substitution.
pub open spec fn parses_u32(s: Seq<char>) -> bool {
    s.len() > 0 && all_digits(s) && digits_val(s) <= u32::MAX
}

/// `s` is a numeral that fits in a `u16`.
pub open spec fn parses_u16(s: Seq<char>) -> bool {
    s.len() > 0 && all_digits(s) && digits_val(s) <= u16::MAX
}

proof fn lemma_digits_val_take_grows(s: Seq<char>, i: int, j: int)
    requires
        0 <= i <= j <= s.len(),
    ensures
        digits_val(s.take(i)) <= digits_val(s.take(j)),
    decreases j - i,
{
    if i < j {
        lemma_digits_val_take_grows(s, i, j - 1);
        assert(s.take(j).drop_last() =~= s.take(j - 1));
        assert(digits_val(s.take(j)) == digits_val(s.take(j - 1)) * 10 + digit_val(s.take(j)
            .last()));
    }
}

/// Parse a decimal `u32`, exactly when the text is a numeral in range.
pub fn parse_u32(s: &str) -> (r: Option<u32>)
    ensures
        r is Some <==> parses_u32(s@),
        r is Some ==> r->0 == digits_val(s@),
{
    let n: usize = s.unicode_len();
    if n == 0 {
        return None;
    }
    let mut acc: u64 = 0;
    let mut i: usize = 0;
    while i < n
        invariant
            0 <= i <= n,
            n == s@.len(),
            n > 0,
            all_digits(s@.take(i as int)),
            acc == digits_val(s@.take(i as int)),
            acc <= u32::MAX,
        decreases n - i,
    {
        let c = s.get_char(i);
        if !(c >= '0' && c <= '9') {
            proof {
                assert(!is_digit(s@[i as int]));
            }
            return None;
        }
        let d: u64 = (c as u32 as u64) - 48;
        proof {
            assert(s@.take(i as int + 1).drop_last() =~= s@.take(i as int));
            assert(s@.take(i as int + 1).last() == s@[i as int]);
            assert(d == digit_val(s@[i as int]));
        }
        acc = acc * 10 + d;
        if acc > 0xFFFF_FFFF {
            proof {
                lemma_digits_val_take_grows(s@, i as int + 1, n as int);
                assert(s@.take(n as int) =~= s@);
            }
            return None;
        }
        i = i + 1;
    }
    proof {
        assert(s@.take(n as int) =~= s@);
    }
    Some(acc as u32)
}

/// Parse a decimal `u16`, exactly when the text is a numeral in range.
pub fn parse_u16(s: &str) -> (r: Option<u16>)
    ensures
        r is Some <==> parses_u16(s@),
        r is Some ==> r->0 == digits_val(s@),
{
    let n: usize = s.unicode_len();
    if n == 0 {
        return None;
    }
    let mut acc: u32 = 0;
    let mut i: usize = 0;
    while i < n
        invariant
            0 <= i <= n,
            n == s@.len(),
            n > 0,
            all_digits(s@.take(i as int)),
            acc == digits_val(s@.take(i as int)),
            acc <= u16::MAX,
        decreases n - i,
    {
        let c = s.get_char(i);
        if !(c >= '0' && c <= '9') {
            proof {
                assert(!is_digit(s@[i as int]));
            }
            return None;
        }
        let d: u32 = (c as u32) - 48;
        proof {
            assert(s@.take(i as int + 1).drop_last() =~= s@.take(i as int));
            assert(s@.take(i as int + 1).last() == s@[i as int]);
            assert(d == digit_val(s@[i as int]));
        }
        acc = acc * 10 + d;
        if acc > 0xFFFF {
            proof {
                lemma_digits_val_take_grows(s@, i as int + 1, n as int);
                assert(s@.take(n as int) =~= s@);
            }
            return None;
        }
        i = i + 1;
    }
    proof {
        assert(s@.take(n as int) =~= s@);
    }
    Some(acc as u16)
}

/// Exact text equality between a field and a grammar keyword.
pub fn str_eq(a: &str, b: &str) -> (r: bool)
    ensures
        r == (a@ == b@),
{
    let sa = a.to_owned();
    let sb = b.to_owned();
    sa == sb
}

} // verus!
