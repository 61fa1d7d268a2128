//! Character-level utilities shared by the parsers: equality, search,
//! splitting, trimming and decimal parsing, each specified over the
//! `Seq<char>` view of the string it works on.

use vstd::prelude::*;

verus! {

/// Two string slices hold the same characters.
pub fn str_eq(a: &str, b: &str) -> (r: bool)
    ensures
        r == (a@ == b@),
{
    let a_len = a.unicode_len();
    let b_len = b.unicode_len();
    if a_len != b_len {
        return false;
    }
    let mut i: usize = 0;
    while i < a_len
        invariant
            a_len == a@.len(),
            b_len == b@.len(),
            a_len == b_len,
            0 <= i <= a_len,
            forall|j: int| 0 <= j < i ==> a@[j] == b@[j],
        decreases a_len - i,
    {
        if a.get_char(i) != b.get_char(i) {
            return false;
        }
        i = i + 1;
    }
    proof {
        assert(a@ =~= b@);
    }
    true
}

/// The pieces of `s` between occurrences of `sep`, in order, as the
/// standard library's `split` yields them: a separator at either end or
/// two adjacent separators contribute an empty piece, and a string
/// without separators is one piece.
pub open spec fn split_seq(s: Seq<char>, sep: char) -> Seq<Seq<char>>
    decreases s.len(),
{
    if s.len() == 0 {
        seq![Seq::<char>::empty()]
    } else if s[0] == sep {
        seq![Seq::<char>::empty()] + split_seq(s.drop_first(), sep)
    } else {
        let rest = split_seq(s.drop_first(), sep);
        seq![seq![s[0]] + rest[0]] + rest.drop_first()
    }
}

pub proof fn lemma_split_len(s: Seq<char>, sep: char)
    ensures
        split_seq(s, sep).len() >= 1,
    decreases s.len(),
{
    if s.len() > 0 {
        lemma_split_len(s.drop_first(), sep);
    }
}

/// Peels the first piece off `split_seq`: if the first separator of `s`
/// stands at `i`, the pieces of `s` are `s[..i]` followed by the pieces
/// of `s[i + 1..]`; if `s` holds no separator, `s` is its own one piece.
pub proof fn lemma_split_first_piece(s: Seq<char>, sep: char, i: int)
    requires
        0 <= i <= s.len(),
        forall|j: int| 0 <= j < i ==> s[j] != sep,
        i < s.len() ==> s[i] == sep,
    ensures
        i == s.len() ==> split_seq(s, sep) == seq![s],
        i < s.len() ==> split_seq(s, sep) == seq![s.subrange(0, i)] + split_seq(
            s.skip(i + 1),
            sep,
        ),
    decreases i,
{
    lemma_split_len(s, sep);
    if i == 0 {
        if s.len() == 0 {
            assert(split_seq(s, sep) =~~= seq![s]);
        } else {
            assert(s[0] == sep);
            assert(s.drop_first() =~= s.skip(1));
            assert(s.subrange(0, 0) =~= Seq::<char>::empty());
            assert(split_seq(s, sep) =~= seq![s.subrange(0, 0)] + split_seq(s.skip(1), sep));
        }
    } else {
        let t = s.drop_first();
        assert(forall|j: int| 0 <= j < i - 1 ==> t[j] != sep);
        lemma_split_first_piece(t, sep, i - 1);
        lemma_split_len(t, sep);
        let rest = split_seq(t, sep);
        if i == s.len() {
            assert(rest == seq![t]);
            assert(s[0] != sep);
            assert(split_seq(s, sep) == seq![seq![s[0]] + rest[0]] + rest.drop_first());
            assert(seq![s[0]] + rest[0] =~= s);
            assert(rest.drop_first() =~= Seq::<Seq<char>>::empty());
            assert(split_seq(s, sep) =~= seq![s]);
        } else {
            assert(rest == seq![t.subrange(0, i - 1)] + split_seq(t.skip(i), sep));
            assert(seq![s[0]] + rest[0] =~= s.subrange(0, i));
            assert(t.skip(i) =~= s.skip(i + 1));
            assert(rest.drop_first() =~= split_seq(s.skip(i + 1), sep));
            assert(split_seq(s, sep) =~= seq![s.subrange(0, i)] + split_seq(s.skip(i + 1), sep));
        }
    }
}

/// Splits `s` on `sep`, as the standard library's `split` does.
pub fn split_str<'a>(s: &'a str, sep: char) -> (r: Vec<&'a str>)
    ensures
        r.deep_view() == split_seq(s@, sep),
{
    let len = s.unicode_len();
    let mut r: Vec<&'a str> = Vec::new();
    let mut start: usize = 0;
    proof {
        assert(s@.skip(0) =~= s@);
    }
    loop
        invariant_except_break
            len == s@.len(),
            start <= len,
            split_seq(s@, sep) == r.deep_view() + split_seq(s@.skip(start as int), sep),
        ensures
            r.deep_view() == split_seq(s@, sep),
        decreases len - start,
    {
        let ghost tail = s@.skip(start as int);
        match find_char_from(s, sep, start) {
            Some(i) => {
                let piece = s.substring_char(start, i);
                proof {
                    assert(forall|j: int| 0 <= j < i - start ==> tail[j] != sep);
                    lemma_split_first_piece(tail, sep, i - start);
                    assert(tail.subrange(0, i - start) =~= s@.subrange(start as int, i as int));
                    assert(tail.skip(i - start + 1) =~= s@.skip(i as int + 1));
                }
                r.push(piece);
                proof {
                    assert(r.deep_view() + split_seq(s@.skip(i as int + 1), sep) =~= split_seq(
                        s@,
                        sep,
                    ));
                }
                start = i + 1;
            },
            None => {
                let piece = s.substring_char(start, len);
                proof {
                    lemma_split_first_piece(tail, sep, len - start);
                    assert(tail =~= s@.subrange(start as int, len as int));
                }
                r.push(piece);
                proof {
                    assert(r.deep_view() =~= split_seq(s@, sep));
                }
                break ;
            },
        }
    }
    r
}

/// Whether `tok` stands among the pieces of `s` split on `sep`.
pub fn contains_token(s: &str, sep: char, tok: &str) -> (r: bool)
    ensures
        r == split_seq(s@, sep).contains(tok@),
{
    let pieces = split_str(s, sep);
    let mut i: usize = 0;
    while i < pieces.len()
        invariant
            pieces.deep_view() == split_seq(s@, sep),
            i <= pieces.len(),
            forall|j: int| 0 <= j < i ==> pieces.deep_view()[j] != tok@,
        decreases pieces.len() - i,
    {
        if str_eq(pieces[i], tok) {
            proof {
                assert(pieces.deep_view()[i as int] == tok@);
            }
            return true;
        }
        i = i + 1;
    }
    proof {
        assert(forall|j: int| 0 <= j < split_seq(s@, sep).len() ==> split_seq(s@, sep)[j]
            != tok@);
    }
    false
}

/// The whitespace characters these pseudo-files can carry: the ASCII
/// ones, as the standard library's `trim` strips them.
pub open spec fn is_space_char(c: char) -> bool {
    c == ' ' || c == '\t' || c == '\n' || c == '\r' || c == '\u{b}' || c == '\u{c}'
}

pub open spec fn trim_front_seq(s: Seq<char>) -> Seq<char>
    decreases s.len(),
{
    if s.len() > 0 && is_space_char(s[0]) {
        trim_front_seq(s.drop_first())
    } else {
        s
    }
}

pub open spec fn trim_back_seq(s: Seq<char>) -> Seq<char>
    decreases s.len(),
{
    if s.len() > 0 && is_space_char(s.last()) {
        trim_back_seq(s.drop_last())
    } else {
        s
    }
}

/// `s` without its leading and trailing whitespace.
pub open spec fn trim_seq(s: Seq<char>) -> Seq<char> {
    trim_back_seq(trim_front_seq(s))
}

proof fn lemma_trim_front_skip(s: Seq<char>, k: int)
    requires
        0 <= k <= s.len(),
        forall|j: int| 0 <= j < k ==> is_space_char(s[j]),
        k < s.len() ==> !is_space_char(s[k]),
    ensures
        trim_front_seq(s) == s.skip(k),
    decreases k,
{
    if k == 0 {
        assert(s.skip(0) =~= s);
    } else {
        let t = s.drop_first();
        lemma_trim_front_skip(t, k - 1);
        assert(t.skip(k - 1) =~= s.skip(k));
    }
}

proof fn lemma_trim_back_take(s: Seq<char>, k: int)
    requires
        0 <= k <= s.len(),
        forall|j: int| k <= j < s.len() ==> is_space_char(s[j]),
        k > 0 ==> !is_space_char(s[k - 1]),
    ensures
        trim_back_seq(s) == s.take(k),
    decreases s.len() - k,
{
    if k == s.len() {
        assert(s.take(k) =~= s);
    } else {
        let t = s.drop_last();
        assert(is_space_char(s.last()));
        lemma_trim_back_take(t, k);
        assert(t.take(k) =~= s.take(k));
    }
}

/// Is `c` one of the ASCII whitespace characters?
pub fn is_space(c: char) -> (r: bool)
    ensures
        r == is_space_char(c),
{
    c == ' ' || c == '\t' || c == '\n' || c == '\r' || c == '\u{b}' || c == '\u{c}'
}

/// Strips leading and trailing ASCII whitespace from `s`.
pub fn trim_str<'a>(s: &'a str) -> (r: &'a str)
    ensures
        r@ == trim_seq(s@),
{
    let len = s.unicode_len();
    let mut lo: usize = 0;
    while lo < len && is_space(s.get_char(lo))
        invariant
            len == s@.len(),
            lo <= len,
            forall|j: int| 0 <= j < lo ==> is_space_char(s@[j]),
        decreases len - lo,
    {
        lo = lo + 1;
    }
    let mut hi: usize = len;
    while hi > lo && is_space(s.get_char(hi - 1))
        invariant
            len == s@.len(),
            lo <= hi <= len,
            forall|j: int| hi <= j < len ==> is_space_char(s@[j]),
        decreases hi,
    {
        hi = hi - 1;
    }
    proof {
        lemma_trim_front_skip(s@, lo as int);
        let t = s@.skip(lo as int);
        assert(forall|j: int| hi - lo <= j < t.len() ==> is_space_char(t[j]));
        lemma_trim_back_take(t, hi - lo);
        assert(t.take(hi - lo) =~= s@.subrange(lo as int, hi as int));
    }
    s.substring_char(lo, hi)
}

/// The numeric value of an ASCII decimal digit.
pub open spec fn digit_val(c: char) -> int {
    (c as u32) as int - 48
}

pub open spec fn is_digit_char(c: char) -> bool {
    48 <= c as u32 <= 57
}

pub open spec fn all_digits(s: Seq<char>) -> bool {
    forall|i: int| 0 <= i < s.len() ==> is_digit_char(s[i])
}

/// The base-ten value of a digit string, most significant digit first.
pub open spec fn dec_val(s: Seq<char>) -> int
    decreases s.len(),
{
    if s.len() == 0 {
        0
    } else {
        dec_val(s.drop_last()) * 10 + digit_val(s.last())
    }
}

/// What the standard library's unsigned decimal parse makes of `s`,
/// before any width bound: an optional leading `+`, then one or more
/// digits; anything else is rejected.
pub open spec fn parse_dec(s: Seq<char>) -> Option<int> {
    let t = if s.len() > 0 && s[0] == '+' {
        s.drop_first()
    } else {
        s
    };
    if t.len() > 0 && all_digits(t) {
        Some(dec_val(t))
    } else {
        None
    }
}

proof fn lemma_dec_val_nonneg(s: Seq<char>)
    requires
        all_digits(s),
    ensures
        dec_val(s) >= 0,
    decreases s.len(),
{
    if s.len() > 0 {
        assert(forall|i: int| 0 <= i < s.drop_last().len() ==> is_digit_char(s.drop_last()[i]));
        lemma_dec_val_nonneg(s.drop_last());
    }
}

/// Appending digits never shrinks the value: the value of a digit
/// string is at least the value of any of its prefixes.
proof fn lemma_dec_val_prefix(s: Seq<char>, k: int)
    requires
        all_digits(s),
        0 <= k <= s.len(),
    ensures
        dec_val(s.take(k)) <= dec_val(s),
    decreases s.len() - k,
{
    if k == s.len() {
        assert(s.take(k) =~= s);
    } else {
        let t = s.drop_last();
        assert(forall|i: int| 0 <= i < t.len() ==> is_digit_char(t[i]));
        lemma_dec_val_nonneg(t);
        assert(t.take(k) =~= s.take(k));
        lemma_dec_val_prefix(t, k);
    }
}

/// Parses `s` as the standard library's `parse::<usize>` does: an
/// optional leading `+`, then decimal digits; `None` on an empty or
/// malformed string and on a value above `usize::MAX`.
pub fn parse_usize(s: &str) -> (r: Option<usize>)
    ensures
        match parse_dec(s@) {
            Some(n) => if n <= usize::MAX {
                r matches Some(v) && v as int == n
            } else {
                r is None
            },
            None => r is None,
        },
{
    let len = s.unicode_len();
    let mut start: usize = 0;
    if len > 0 && s.get_char(0) == '+' {
        start = 1;
    }
    let ghost t = if s@.len() > 0 && s@[0] == '+' {
        s@.drop_first()
    } else {
        s@
    };
    proof {
        assert(t =~= s@.skip(start as int));
    }
    if start >= len {
        return None;
    }
    let mut acc: usize = 0;
    let mut i: usize = start;
    while i < len
        invariant
            len == s@.len(),
            start <= i <= len,
            start < len,
            t == s@.skip(start as int),
            t == (if s@.len() > 0 && s@[0] == '+' {
                s@.drop_first()
            } else {
                s@
            }),
            t.len() == len - start,
            forall|j: int| 0 <= j < i - start ==> is_digit_char(t[j]),
            acc as int == dec_val(t.take(i - start)),
        decreases len - i,
    {
        let c = s.get_char(i);
        let cv = c as u32;
        if cv < 48 || cv > 57 {
            proof {
                assert(0 <= i - start < t.len());
                assert(!is_digit_char(t[i - start]));
                assert(!all_digits(t));
                assert(parse_dec(s@) is None);
            }
            return None;
        }
        let d = (cv - 48) as usize;
        let ghost pre = t.take(i - start);
        let ghost cur = t.take(i - start + 1);
        proof {
            assert(cur.drop_last() =~= pre);
            assert(cur.last() == t[i - start]);
            assert(dec_val(cur) == acc * 10 + d);
        }
        let acc10 = match acc.checked_mul(10) {
            Some(v) => v,
            None => {
                proof {
                    lemma_overflow_means_large(t, i - start + 1, acc * 10 + d);
                    if all_digits(t) {
                        assert(parse_dec(s@) == Some(dec_val(t)));
                        assert(dec_val(t) > usize::MAX);
                    } else {
                        assert(parse_dec(s@) is None);
                    }
                }
                return None;
            },
        };
        acc = match acc10.checked_add(d) {
            Some(v) => v,
            None => {
                proof {
                    lemma_overflow_means_large(t, i - start + 1, acc * 10 + d);
                    if all_digits(t) {
                        assert(parse_dec(s@) == Some(dec_val(t)));
                        assert(dec_val(t) > usize::MAX);
                    } else {
                        assert(parse_dec(s@) is None);
                    }
                }
                return None;
            },
        };
        i = i + 1;
    }
    proof {
        assert(t.take(t.len() as int) =~= t);
        assert(all_digits(t));
    }
    Some(acc)
}

/// If some prefix of the digit string already exceeds `usize::MAX`,
/// the whole parse exceeds it too, whichever way the rest turns out.
proof fn lemma_overflow_means_large(t: Seq<char>, k: int, v: int)
    requires
        0 < k <= t.len(),
        forall|j: int| 0 <= j < k ==> is_digit_char(t[j]),
        dec_val(t.take(k)) == v,
        v > usize::MAX,
    ensures
        all_digits(t) ==> dec_val(t) > usize::MAX,
{
    if all_digits(t) {
        lemma_dec_val_prefix(t, k);
    }
}

/// First position of `sep` in `s` at or after `from`, if any.
pub fn find_char_from(s: &str, sep: char, from: usize) -> (r: Option<usize>)
    requires
        from <= s@.len(),
    ensures
        match r {
            Some(i) => {
                &&& from <= i < s@.len()
                &&& s@[i as int] == sep
                &&& forall|j: int| from <= j < i ==> s@[j] != sep
            },
            None => forall|j: int| from <= j < s@.len() ==> s@[j] != sep,
        },
{
    let len = s.unicode_len();
    let mut i: usize = from;
    while i < len
        invariant
            len == s@.len(),
            from <= i <= len,
            forall|j: int| from <= j < i ==> s@[j] != sep,
        decreases len - i,
    {
        if s.get_char(i) == sep {
            return Some(i);
        }
        i = i + 1;
    }
    None
}

} // verus!
