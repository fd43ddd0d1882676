//! Character-level text primitives: whitespace, trimming and splitting on a
//! pattern, each with a mathematical model over `Seq<char>`.

use vstd::prelude::*;
use vstd::slice::slice_subrange;

verus! {

/// `String::push` appends one character to the end of the string.
pub assume_specification[ String::push ](s: &mut String, c: char)
    ensures
        final(s)@ == old(s)@.push(c),
;

/// The characters that carry the Unicode `White_Space` property.
pub open spec fn is_whitespace(c: char) -> bool {
    let n = c as u32;
    ||| 0x09 <= n <= 0x0D
    ||| n == 0x20
    ||| n == 0x85
    ||| n == 0xA0
    ||| n == 0x1680
    ||| 0x2000 <= n <= 0x200A
    ||| n == 0x2028
    ||| n == 0x2029
    ||| n == 0x202F
    ||| n == 0x205F
    ||| n == 0x3000
}

/// A sequence is blank when it holds nothing but whitespace; the empty
/// sequence is blank.
pub open spec fn is_blank(s: Seq<char>) -> bool {
    forall|i: int| 0 <= i < s.len() ==> is_whitespace(#[trigger] s[i])
}

/// `s` with its leading whitespace removed.
pub open spec fn without_leading_whitespace(s: Seq<char>) -> Seq<char>
    decreases s.len(),
{
    if s.len() > 0 && is_whitespace(s[0]) {
        without_leading_whitespace(s.drop_first())
    } else {
        s
    }
}

/// `s` with its trailing whitespace removed.
pub open spec fn without_trailing_whitespace(s: Seq<char>) -> Seq<char>
    decreases s.len(),
{
    if s.len() > 0 && is_whitespace(s.last()) {
        without_trailing_whitespace(s.drop_last())
    } else {
        s
    }
}

/// `s` with leading and trailing whitespace removed.
pub open spec fn trimmed(s: Seq<char>) -> Seq<char> {
    without_trailing_whitespace(without_leading_whitespace(s))
}

/// Whether `pat` occurs in `s` starting at index `i`.
pub open spec fn occurs_at(s: Seq<char>, pat: Seq<char>, i: int) -> bool {
    &&& 0 <= i
    &&& i + pat.len() <= s.len()
    &&& s.subrange(i, i + pat.len()) == pat
}

/// The least index at or after `from` where `pat` occurs in `s`.
pub open spec fn first_occurrence(s: Seq<char>, pat: Seq<char>, from: int) -> Option<int>
    decreases s.len() - from + 1,
{
    if from < 0 || from + pat.len() > s.len() {
        None
    } else if occurs_at(s, pat, from) {
        Some(from)
    } else {
        first_occurrence(s, pat, from + 1)
    }
}

/// The pieces of `s` from index `start` on, cut at each occurrence of `pat`
/// found from left to right without overlap.
pub open spec fn pieces_from(s: Seq<char>, pat: Seq<char>, start: int) -> Seq<Seq<char>>
    decreases s.len() - start,
{
    match first_occurrence(s, pat, start) {
        Some(i) => if pat.len() > 0 && start <= i && i + pat.len() <= s.len() {
            seq![s.subrange(start, i)] + pieces_from(s, pat, i + pat.len())
        } else {
            seq![s.subrange(start, s.len() as int)]
        },
        None => seq![s.subrange(start, s.len() as int)],
    }
}

/// The pieces of `s` between the occurrences of `pat`: always at least one
/// piece, and `s` itself where `pat` does not occur or is empty.
pub open spec fn pieces(s: Seq<char>, pat: Seq<char>) -> Seq<Seq<char>> {
    pieces_from(s, pat, 0)
}

/// The views of a vector of slices, in order.
pub open spec fn slices_view(parts: Seq<&[char]>) -> Seq<Seq<char>> {
    parts.map_values(|p: &[char]| p@)
}

/// The parts put together again, with `sep` between each two of them.
pub open spec fn joined(parts: Seq<Seq<char>>, sep: Seq<char>) -> Seq<char>
    decreases parts.len(),
{
    if parts.len() == 0 {
        Seq::empty()
    } else if parts.len() == 1 {
        parts[0]
    } else {
        parts[0] + sep + joined(parts.drop_first(), sep)
    }
}

/// The first occurrence is an occurrence, and the leftmost one from `from`
/// on; where there is none, the pattern occurs nowhere from `from` on.
pub proof fn lemma_first_occurrence(s: Seq<char>, pat: Seq<char>, from: int)
    requires
        0 <= from,
    ensures
        match first_occurrence(s, pat, from) {
            Some(i) => from <= i && occurs_at(s, pat, i) && forall|j: int|
                from <= j < i ==> !occurs_at(s, pat, j),
            None => forall|j: int| from <= j ==> !occurs_at(s, pat, j),
        },
    decreases s.len() - from + 1,
{
    if from + pat.len() > s.len() {
    } else if occurs_at(s, pat, from) {
    } else {
        lemma_first_occurrence(s, pat, from + 1);
    }
}

/// There is always at least one piece.
pub proof fn lemma_pieces_nonempty(s: Seq<char>, pat: Seq<char>, start: int)
    ensures
        pieces_from(s, pat, start).len() >= 1,
{
}

/// Cutting loses nothing: the pieces, put together again with the pattern
/// between them, are the sequence that was cut.
pub proof fn lemma_pieces_rejoin(s: Seq<char>, pat: Seq<char>, start: int)
    requires
        0 <= start <= s.len(),
    ensures
        joined(pieces_from(s, pat, start), pat) == s.subrange(start, s.len() as int),
    decreases s.len() - start,
{
    let all = pieces_from(s, pat, start);
    match first_occurrence(s, pat, start) {
        Some(i) => {
            if pat.len() > 0 && start <= i && i + pat.len() <= s.len() {
                let next = i + pat.len();
                let rest = pieces_from(s, pat, next);
                lemma_first_occurrence(s, pat, start);
                lemma_pieces_rejoin(s, pat, next);
                lemma_pieces_nonempty(s, pat, next);
                assert(all.drop_first() =~= rest);
                assert(all[0] == s.subrange(start, i));
                assert(s.subrange(start, i) + s.subrange(i, next) + s.subrange(
                    next,
                    s.len() as int,
                ) =~= s.subrange(start, s.len() as int));
            }
        },
        None => {},
    }
}

/// The pattern occurs in none of the pieces.
pub proof fn lemma_pieces_hold_no_pattern(s: Seq<char>, pat: Seq<char>, start: int, k: int)
    requires
        0 <= start <= s.len(),
        pat.len() > 0,
        0 <= k < pieces_from(s, pat, start).len(),
    ensures
        forall|j: int| !occurs_at(pieces_from(s, pat, start)[k], pat, j),
    decreases s.len() - start,
{
    let all = pieces_from(s, pat, start);
    lemma_first_occurrence(s, pat, start);
    match first_occurrence(s, pat, start) {
        Some(i) => {
            let next = i + pat.len();
            if k == 0 {
                let piece = s.subrange(start, i);
                assert(all[0] == piece);
                assert forall|j: int| !occurs_at(piece, pat, j) by {
                    if occurs_at(piece, pat, j) {
                        assert(piece.subrange(j, j + pat.len()) =~= s.subrange(
                            start + j,
                            start + j + pat.len(),
                        ));
                        assert(occurs_at(s, pat, start + j));
                    }
                }
            } else {
                let rest = pieces_from(s, pat, next);
                assert(all[k] == rest[k - 1]);
                lemma_pieces_hold_no_pattern(s, pat, next, k - 1);
            }
        },
        None => {
            let piece = s.subrange(start, s.len() as int);
            assert(all[0] == piece);
            assert forall|j: int| !occurs_at(piece, pat, j) by {
                if occurs_at(piece, pat, j) {
                    assert(piece.subrange(j, j + pat.len()) =~= s.subrange(
                        start + j,
                        start + j + pat.len(),
                    ));
                    assert(occurs_at(s, pat, start + j));
                }
            }
        },
    }
}

/// What trimming leaves is an inner part of the sequence, and what it takes
/// away at either end is whitespace.
pub proof fn lemma_trimmed_is_inner(s: Seq<char>)
    ensures
        exists|a: int, b: int|
            {
                &&& 0 <= a <= b <= s.len()
                &&& #[trigger] s.subrange(a, b) == trimmed(s)
                &&& forall|i: int| 0 <= i < a ==> is_whitespace(#[trigger] s[i])
                &&& forall|i: int| b <= i < s.len() ==> is_whitespace(#[trigger] s[i])
            },
{
    let mid = without_leading_whitespace(s);
    lemma_leading(s);
    lemma_trailing(mid);
    let a = s.len() - mid.len();
    let b = a + trimmed(s).len();
    assert(s.subrange(a, b) =~= trimmed(s));
    assert forall|i: int| b <= i < s.len() implies is_whitespace(#[trigger] s[i]) by {
        assert(s[i] == mid[i - a]);
    }
}

/// The number of characters in all the parts together.
pub open spec fn total_len(parts: Seq<Seq<char>>) -> nat
    decreases parts.len(),
{
    if parts.len() == 0 {
        0
    } else {
        total_len(parts.drop_last()) + parts.last().len()
    }
}

/// The characters of two runs of parts add up.
pub proof fn lemma_total_len_add(a: Seq<Seq<char>>, b: Seq<Seq<char>>)
    ensures
        total_len(a + b) == total_len(a) + total_len(b),
    decreases b.len(),
{
    if b.len() == 0 {
        assert(a + b =~= a);
    } else {
        lemma_total_len_add(a, b.drop_last());
        assert((a + b).drop_last() =~= a + b.drop_last());
    }
}

/// No part is longer than all the parts together.
pub proof fn lemma_total_len_bounds_part(parts: Seq<Seq<char>>, i: int)
    requires
        0 <= i < parts.len(),
    ensures
        parts[i].len() <= total_len(parts),
    decreases parts.len(),
{
    if i < parts.len() - 1 {
        lemma_total_len_bounds_part(parts.drop_last(), i);
    }
}

/// The pieces of a sequence hold no more characters than the sequence.
pub proof fn lemma_pieces_total_len(s: Seq<char>, pat: Seq<char>, start: int)
    requires
        0 <= start <= s.len(),
    ensures
        total_len(pieces_from(s, pat, start)) <= s.len() - start,
    decreases s.len() - start,
{
    let whole = seq![s.subrange(start, s.len() as int)];
    assert(total_len(Seq::<Seq<char>>::empty()) == 0);
    assert(whole.drop_last() =~= Seq::<Seq<char>>::empty());
    assert(total_len(whole) == s.len() - start);
    match first_occurrence(s, pat, start) {
        Some(i) => {
            if pat.len() > 0 && start <= i && i + pat.len() <= s.len() {
                let head = seq![s.subrange(start, i)];
                assert(head.drop_last() =~= Seq::<Seq<char>>::empty());
                lemma_pieces_total_len(s, pat, i + pat.len());
                lemma_total_len_add(head, pieces_from(s, pat, i + pat.len()));
            }
        },
        None => {},
    }
}

/// A trimmed sequence neither starts nor ends with whitespace.
pub proof fn lemma_trimmed_ends(s: Seq<char>)
    ensures
        trimmed(s).len() <= s.len(),
        trimmed(s).len() > 0 ==> !is_whitespace(trimmed(s)[0]) && !is_whitespace(
            trimmed(s).last(),
        ),
{
    lemma_leading(s);
    lemma_trailing(without_leading_whitespace(s));
}

/// Trimming leaves nothing exactly when the sequence is blank.
pub proof fn lemma_trimmed_empty_iff_blank(s: Seq<char>)
    ensures
        trimmed(s).len() == 0 <==> is_blank(s),
{
    lemma_leading(s);
    lemma_trailing(without_leading_whitespace(s));
    let mid = without_leading_whitespace(s);
    let k = s.len() - mid.len();
    if trimmed(s).len() == 0 {
        if mid.len() > 0 {
            assert(!is_whitespace(mid[0]));
            assert(trimmed(s).len() > 0);
        }
        assert forall|i: int| 0 <= i < s.len() implies is_whitespace(#[trigger] s[i]) by {}
    } else {
        let t = trimmed(s);
        assert(t[0] == mid[0]);
        assert(mid[0] == s[k]);
        assert(!is_whitespace(s[k]));
    }
}

/// Trimming a trimmed sequence changes nothing.
pub proof fn lemma_trimmed_idempotent(s: Seq<char>)
    ensures
        trimmed(trimmed(s)) == trimmed(s),
{
    lemma_trimmed_ends(s);
}

proof fn lemma_leading(s: Seq<char>)
    ensures
        without_leading_whitespace(s).len() <= s.len(),
        without_leading_whitespace(s) == s.subrange(
            s.len() - without_leading_whitespace(s).len(),
            s.len() as int,
        ),
        forall|i: int|
            0 <= i < s.len() - without_leading_whitespace(s).len() ==> is_whitespace(
                #[trigger] s[i],
            ),
        without_leading_whitespace(s).len() > 0 ==> !is_whitespace(
            without_leading_whitespace(s)[0],
        ),
    decreases s.len(),
{
    if s.len() > 0 && is_whitespace(s[0]) {
        let rest = s.drop_first();
        lemma_leading(rest);
        let r = without_leading_whitespace(rest);
        assert(r == s.subrange(s.len() - r.len(), s.len() as int));
        assert forall|i: int| 0 <= i < s.len() - r.len() implies is_whitespace(
            #[trigger] s[i],
        ) by {
            if i > 0 {
                assert(s[i] == rest[i - 1]);
            }
        }
    } else {
        assert(s == s.subrange(0, s.len() as int));
    }
}

proof fn lemma_trailing(s: Seq<char>)
    ensures
        without_trailing_whitespace(s).len() <= s.len(),
        without_trailing_whitespace(s) == s.subrange(
            0,
            without_trailing_whitespace(s).len() as int,
        ),
        forall|i: int|
            without_trailing_whitespace(s).len() <= i < s.len() ==> is_whitespace(#[trigger] s[i]),
        without_trailing_whitespace(s).len() > 0 ==> !is_whitespace(
            without_trailing_whitespace(s).last(),
        ),
    decreases s.len(),
{
    if s.len() > 0 && is_whitespace(s.last()) {
        let rest = s.drop_last();
        lemma_trailing(rest);
        let r = without_trailing_whitespace(rest);
        assert(r == s.subrange(0, r.len() as int));
        assert forall|i: int| r.len() <= i < s.len() implies is_whitespace(#[trigger] s[i]) by {
            if i < s.len() - 1 {
                assert(s[i] == rest[i]);
            }
        }
    } else {
        assert(s == s.subrange(0, s.len() as int));
    }
}

/// Whether `c` is a whitespace character.
pub fn is_whitespace_char(c: char) -> (r: bool)
    ensures
        r == is_whitespace(c),
{
    let n: u32 = c as u32;
    (0x09 <= n && n <= 0x0D) || n == 0x20 || n == 0x85 || n == 0xA0 || n == 0x1680 || (0x2000 <= n
        && n <= 0x200A) || n == 0x2028 || n == 0x2029 || n == 0x202F || n == 0x205F || n == 0x3000
}

/// The characters of a string, in order.
pub fn chars_of(s: &str) -> (v: Vec<char>)
    ensures
        v@ == s@,
{
    broadcast use vstd::string::axiom_spec_iter;

    let mut v: Vec<char> = Vec::new();
    for c in it: s.chars()
        invariant
            it.seq() == s@,
            v@ == s@.take(it.index() as int),
    {
        v.push(c);
        assert(s@.take(it.index() + 1) == s@.take(it.index() as int).push(c));
    }
    assert(s@.take(s@.len() as int) == s@);
    v
}

/// A string made of the characters of `s`, in order.
pub fn string_of(s: &[char]) -> (out: String)
    ensures
        out@ == s@,
{
    let mut out = String::new();
    let mut i: usize = 0;
    while i < s.len()
        invariant
            i <= s.len(),
            out@ == s@.take(i as int),
        decreases s.len() - i,
    {
        out.push(s[i]);
        assert(s@.take(i + 1) == s@.take(i as int).push(s@[i as int]));
        i = i + 1;
    }
    assert(s@.take(s@.len() as int) == s@);
    out
}

/// The slice without its leading and trailing whitespace.
pub fn trim<'a>(s: &'a [char]) -> (r: &'a [char])
    ensures
        r@ == trimmed(s@),
{
    let mut a: usize = 0;
    assert(s@.subrange(0, s.len() as int) == s@);
    while a < s.len() && is_whitespace_char(s[a])
        invariant
            a <= s.len(),
            without_leading_whitespace(s@) == without_leading_whitespace(
                s@.subrange(a as int, s.len() as int),
            ),
        decreases s.len() - a,
    {
        assert(s@.subrange(a as int, s.len() as int).drop_first() == s@.subrange(
            a + 1,
            s.len() as int,
        ));
        a = a + 1;
    }
    let ghost mid = s@.subrange(a as int, s.len() as int);
    assert(without_leading_whitespace(s@) == mid);
    let mut b: usize = s.len();
    while b > a && is_whitespace_char(s[b - 1])
        invariant
            a <= b <= s.len(),
            without_trailing_whitespace(mid) == without_trailing_whitespace(
                s@.subrange(a as int, b as int),
            ),
        decreases b - a,
    {
        assert(s@.subrange(a as int, b as int).drop_last() == s@.subrange(a as int, b - 1));
        b = b - 1;
    }
    slice_subrange(s, a, b)
}

/// Whether `pat` occurs in `s` at index `i`.
pub fn matches_at(s: &[char], pat: &[char], i: usize) -> (r: bool)
    ensures
        r == occurs_at(s@, pat@, i as int),
{
    if pat.len() > s.len() || i > s.len() - pat.len() {
        return false;
    }
    let mut k: usize = 0;
    while k < pat.len()
        invariant
            k <= pat.len(),
            i + pat.len() <= s.len(),
            forall|j: int| 0 <= j < k ==> s@[i + j] == pat@[j],
        decreases pat.len() - k,
    {
        if s[i + k] != pat[k] {
            assert(s@.subrange(i as int, i + pat.len())[k as int] == s@[i + k]);
            return false;
        }
        k = k + 1;
    }
    assert(s@.subrange(i as int, i + pat.len()) =~= pat@);
    true
}

/// The first index at or after `from` where `pat` occurs in `s`.
pub fn find(s: &[char], pat: &[char], from: usize) -> (r: Option<usize>)
    ensures
        match r {
            Some(i) => first_occurrence(s@, pat@, from as int) == Some(i as int) && from <= i
                && i + pat.len() <= s.len(),
            None => first_occurrence(s@, pat@, from as int) is None,
        },
{
    if pat.len() > s.len() {
        return None;
    }
    let last: usize = s.len() - pat.len();
    let mut i: usize = from;
    while i <= last
        invariant
            from <= i,
            last == s.len() - pat.len(),
            first_occurrence(s@, pat@, from as int) == first_occurrence(s@, pat@, i as int),
        decreases last + 1 - i,
    {
        if matches_at(s, pat, i) {
            return Some(i);
        }
        assert(pat.len() > 0) by {
            if pat.len() == 0 {
                assert(s@.subrange(i as int, i as int) =~= pat@);
            }
        }
        i = i + 1;
    }
    None
}

/// The pieces of `s` between the occurrences of `pat`.
pub fn split<'a>(s: &'a [char], pat: &[char]) -> (parts: Vec<&'a [char]>)
    ensures
        slices_view(parts@) == pieces(s@, pat@),
        parts.len() >= 1,
{
    let mut parts: Vec<&'a [char]> = Vec::new();
    let mut start: usize = 0;
    if pat.len() == 0 {
        parts.push(s);
        assert(s@.subrange(0, s@.len() as int) == s@);
        assert(slices_view(parts@) =~= seq![s@]);
        return parts;
    }
    loop
        invariant_except_break
            start <= s.len(),
            pat.len() > 0,
            slices_view(parts@) + pieces_from(s@, pat@, start as int) == pieces(s@, pat@),
        ensures
            slices_view(parts@) == pieces(s@, pat@),
            parts.len() >= 1,
        decreases s.len() - start,
    {
        let ghost before = slices_view(parts@);
        match find(s, pat, start) {
            Some(i) => {
                let piece = slice_subrange(s, start, i);
                parts.push(piece);
                assert(slices_view(parts@) =~= before.push(piece@));
                assert(before.push(piece@) + pieces_from(s@, pat@, i + pat.len()) =~= before + (
                seq![piece@] + pieces_from(s@, pat@, i + pat.len())));
                start = i + pat.len();
            },
            None => {
                let piece = slice_subrange(s, start, s.len());
                parts.push(piece);
                assert(slices_view(parts@) =~= before.push(piece@));
                assert(before.push(piece@) =~= before + seq![piece@]);
                break;
            },
        }
    }
    parts
}

/// Whether two strings hold the same characters.
pub fn same_text(a: &str, b: &str) -> (r: bool)
    ensures
        r == (a@ == b@),
{
    let x = a.as_bytes();
    let y = b.as_bytes();
    proof {
        vstd::utf8::encode_utf8_decode_utf8(a@);
        vstd::utf8::encode_utf8_decode_utf8(b@);
    }
    if x.len() != y.len() {
        return false;
    }
    let mut i: usize = 0;
    while i < x.len()
        invariant
            i <= x.len(),
            x.len() == y.len(),
            x@ == vstd::utf8::encode_utf8(a@),
            y@ == vstd::utf8::encode_utf8(b@),
            forall|j: int| 0 <= j < i ==> x@[j] == y@[j],
        decreases x.len() - i,
    {
        if x[i] != y[i] {
            assert(x@[i as int] != y@[i as int]);
            return false;
        }
        i = i + 1;
    }
    assert(x@ =~= y@);
    true
}

} // verus!
