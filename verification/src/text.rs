//! Character-level text primitives with exact specifications.
//!
//! Strings are reasoned about through their view, a `Seq<char>`.  The
//! whitespace predicate is the Unicode `White_Space` property used by
//! `char::is_whitespace`, `str::trim` and `str::split_whitespace`.
use vstd::prelude::*;

verus! {

/// `char::is_whitespace`: the Unicode `White_Space` property.
pub open spec fn is_ws(c: char) -> bool {
    let u = c as u32;
    ||| (0x9 <= u && u <= 0xd)
    ||| u == 0x20
    ||| u == 0x85
    ||| u == 0xa0
    ||| u == 0x1680
    ||| (0x2000 <= u && u <= 0x200a)
    ||| u == 0x2028
    ||| u == 0x2029
    ||| u == 0x202f
    ||| u == 0x205f
    ||| u == 0x3000
}

/// Appends one character to a `String` (`String::push`).
#[verifier::external_body]
fn push_char(s: &mut String, c: char)
    ensures
        final(s)@ == old(s)@.push(c),
{
    s.push(c);
}

/// Returns whether `c` is a whitespace character.
pub fn is_whitespace(c: char) -> (r: bool)
    ensures
        r == is_ws(c),
{
    let u = c as u32;
    (0x9 <= u && u <= 0xd) || u == 0x20 || u == 0x85 || u == 0xa0 || u == 0x1680 || (0x2000 <= u
        && u <= 0x200a) || u == 0x2028 || u == 0x2029 || u == 0x202f || u == 0x205f || u == 0x3000
}

/// The characters of `s`, in order.
pub fn chars_of(s: &str) -> (v: Vec<char>)
    ensures
        v@ == s@,
{
    broadcast use vstd::string::group_string_axioms;

    let mut v: Vec<char> = Vec::new();
    for c in it: s.chars()
        invariant
            v@ == it.seq().take(it.index() as int),
    {
        v.push(c);
    }
    v
}

/// The string made of the characters of `v`, in order.
pub fn string_of(v: &[char]) -> (s: String)
    ensures
        s@ == v@,
{
    let mut s = String::new();
    let mut i: usize = 0;
    while i < v.len()
        invariant
            i <= v@.len(),
            s@ == v@.take(i as int),
        decreases v@.len() - i,
    {
        push_char(&mut s, v[i]);
        assert(v@.take(i as int).push(v@[i as int]) =~= v@.take(i + 1));
        i += 1;
    }
    assert(v@.take(v@.len() as int) =~= v@);
    s
}


/// The words of `s` (`str::split_whitespace`): its maximal runs of
/// non-whitespace characters, in order.
pub open spec fn words(s: Seq<char>) -> Seq<Seq<char>>
    decreases s.len(),
{
    if s.len() == 0 {
        seq![]
    } else {
        let w = words(s.drop_last());
        let c = s.last();
        if is_ws(c) {
            w
        } else if s.len() >= 2 && !is_ws(s[s.len() - 2]) {
            w.drop_last().push(w.last().push(c))
        } else {
            w.push(seq![c])
        }
    }
}

/// The pieces of `ws` joined with `sep` between consecutive pieces.
pub open spec fn join(ws: Seq<Seq<char>>, sep: Seq<char>) -> Seq<char>
    decreases ws.len(),
{
    if ws.len() == 0 {
        seq![]
    } else if ws.len() == 1 {
        ws[0]
    } else {
        join(ws.drop_last(), sep) + sep + ws.last()
    }
}

/// `s` with leading whitespace removed.
pub open spec fn trim_start(s: Seq<char>) -> Seq<char>
    decreases s.len(),
{
    if s.len() > 0 && is_ws(s[0]) {
        trim_start(s.drop_first())
    } else {
        s
    }
}

/// `s` with trailing whitespace removed.
pub open spec fn trim_end(s: Seq<char>) -> Seq<char>
    decreases s.len(),
{
    if s.len() > 0 && is_ws(s.last()) {
        trim_end(s.drop_last())
    } else {
        s
    }
}

/// `str::trim`: `s` without leading and trailing whitespace.
pub open spec fn trim(s: Seq<char>) -> Seq<char> {
    trim_end(trim_start(s))
}

/// A string that ends in a non-whitespace character has at least one word.
pub proof fn lemma_words_nonempty(s: Seq<char>)
    requires
        s.len() > 0,
        !is_ws(s.last()),
    ensures
        words(s).len() > 0,
    decreases s.len(),
{
    if s.len() >= 2 && !is_ws(s[s.len() - 2]) {
        lemma_words_nonempty(s.drop_last());
    }
}

/// Every word is a non-empty run of non-whitespace characters.
pub proof fn lemma_words_shape(s: Seq<char>)
    ensures
        forall|i: int| 0 <= i < words(s).len() ==> #[trigger] words(s)[i].len() > 0,
        forall|i: int, j: int|
            0 <= i < words(s).len() && 0 <= j < words(s)[i].len() ==> !is_ws(
                #[trigger] words(s)[i][j],
            ),
    decreases s.len(),
{
    if s.len() > 0 {
        lemma_words_shape(s.drop_last());
        let c = s.last();
        if !is_ws(c) && s.len() >= 2 && !is_ws(s[s.len() - 2]) {
            lemma_words_nonempty(s.drop_last());
        }
    }
}

proof fn lemma_join_push(ws: Seq<Seq<char>>, w: Seq<char>, sep: Seq<char>)
    requires
        ws.len() > 0,
    ensures
        join(ws.push(w), sep) == join(ws, sep) + sep + w,
{
    assert(ws.push(w).drop_last() =~= ws);
}

proof fn lemma_join_extend_last(ws: Seq<Seq<char>>, c: char, sep: Seq<char>)
    requires
        ws.len() > 0,
    ensures
        join(ws.drop_last().push(ws.last().push(c)), sep) == join(ws, sep).push(c),
{
    let ws2 = ws.drop_last().push(ws.last().push(c));
    if ws.len() == 1 {
        assert(ws2.len() == 1);
    } else {
        assert(ws2.drop_last() =~= ws.drop_last());
        assert(join(ws2, sep) == join(ws.drop_last(), sep) + sep + ws.last().push(c));
        assert((join(ws.drop_last(), sep) + sep + ws.last()).push(c) =~= join(ws.drop_last(), sep)
            + sep + ws.last().push(c));
    }
}

/// The words of `s`, joined with `sep` (`split_whitespace` then `join`).
pub fn join_words(s: &[char], sep: &[char]) -> (r: Vec<char>)
    ensures
        r@ == join(words(s@), sep@),
{
    let mut out: Vec<char> = Vec::new();
    let mut in_word = false;
    let mut any_word = false;
    let mut i: usize = 0;
    while i < s.len()
        invariant
            i <= s@.len(),
            out@ == join(words(s@.take(i as int)), sep@),
            any_word == (words(s@.take(i as int)).len() > 0),
            in_word == (i > 0 && !is_ws(s@[i - 1])),
        decreases s@.len() - i,
    {
        let c = s[i];
        let ghost pre = s@.take(i as int);
        let ghost post = s@.take(i + 1);
        assert(post.drop_last() =~= pre);
        assert(post.last() == c);
        if is_whitespace(c) {
            in_word = false;
        } else if in_word {
            proof {
                assert(post[post.len() - 2] == s@[i - 1]);
                lemma_words_nonempty(pre);
                lemma_join_extend_last(words(pre), c, sep@);
            }
            out.push(c);
        } else {
            if any_word {
                proof {
                    lemma_join_push(words(pre), seq![c], sep@);
                }
                let mut k: usize = 0;
                while k < sep.len()
                    invariant
                        k <= sep@.len(),
                        out@ == join(words(pre), sep@) + sep@.take(k as int),
                    decreases sep@.len() - k,
                {
                    out.push(sep[k]);
                    assert(sep@.take(k as int).push(sep@[k as int]) =~= sep@.take(k + 1));
                    assert((join(words(pre), sep@) + sep@.take(k as int)).push(sep@[k as int])
                        =~= join(words(pre), sep@) + sep@.take(k + 1));
                    k += 1;
                }
                assert(sep@.take(sep@.len() as int) =~= sep@);
                out.push(c);
                assert(join(words(pre), sep@) + sep@ + seq![c] =~= (join(words(pre), sep@)
                    + sep@).push(c));
            } else {
                assert(words(post) =~= seq![seq![c]]);
                out.push(c);
                assert(out@ =~= seq![c]);
            }
            in_word = true;
            any_word = true;
            proof {
                lemma_words_nonempty(post);
            }
        }
        i += 1;
    }
    assert(s@.take(s@.len() as int) =~= s@);
    out
}

/// The number of words of `s` (`split_whitespace().count()`).
pub fn count_words(s: &str) -> (n: usize)
    ensures
        n == words(s@).len(),
{
    let v = chars_of(s);
    let mut n: usize = 0;
    let mut in_word = false;
    let mut i: usize = 0;
    while i < v.len()
        invariant
            i <= v@.len(),
            n == words(v@.take(i as int)).len(),
            n <= i,
            in_word == (i > 0 && !is_ws(v@[i - 1])),
        decreases v@.len() - i,
    {
        let c = v[i];
        let ghost pre = v@.take(i as int);
        let ghost post = v@.take(i + 1);
        assert(post.drop_last() =~= pre);
        if is_whitespace(c) {
            in_word = false;
        } else if in_word {
            proof {
                assert(post[post.len() - 2] == v@[i - 1]);
                lemma_words_nonempty(pre);
            }
        } else {
            n += 1;
            in_word = true;
        }
        i += 1;
    }
    assert(v@.take(v@.len() as int) =~= v@);
    n
}


/// `str::replace(p, t)` for a non-empty pattern `p`: every occurrence of `p`,
/// found left to right without overlap, is replaced with `t`.
pub open spec fn replace_all(s: Seq<char>, p: Seq<char>, t: Seq<char>) -> Seq<char>
    decreases s.len(),
{
    if s.len() == 0 {
        seq![]
    } else if p.len() > 0 && p.is_prefix_of(s) {
        t + replace_all(s.skip(p.len() as int), p, t)
    } else {
        seq![s[0]] + replace_all(s.drop_first(), p, t)
    }
}

/// `s` contains `p` as a contiguous piece.
pub open spec fn has_piece(s: Seq<char>, p: Seq<char>) -> bool {
    exists|i: int| 0 <= i <= s.len() - p.len() && #[trigger] s.subrange(i, i + p.len()) == p
}

/// Whether `p` occurs in `s` starting at position `i`.
pub fn matches_at(s: &[char], i: usize, p: &[char]) -> (r: bool)
    requires
        i <= s@.len(),
    ensures
        r == p@.is_prefix_of(s@.skip(i as int)),
        r == (i + p@.len() <= s@.len() && s@.subrange(i as int, i + p@.len()) == p@),
{
    if p.len() > s.len() - i {
        return false;
    }
    let mut k: usize = 0;
    while k < p.len()
        invariant
            i + p@.len() <= s@.len(),
            s@.len() == s.len(),
            k <= p@.len(),
            forall|j: int| 0 <= j < k ==> s@[i + j] == p@[j],
        decreases p@.len() - k,
    {
        if s[i + k] != p[k] {
            assert(s@.skip(i as int)[k as int] != p@[k as int]);
            assert(s@.subrange(i as int, i + p@.len())[k as int] != p@[k as int]);
            return false;
        }
        k += 1;
    }
    assert(p@ =~= s@.skip(i as int).subrange(0, p@.len() as int));
    assert(p@ =~= s@.subrange(i as int, i + p@.len()));
    true
}

/// Whether `p` occurs somewhere in `s` (`str::contains`).
pub fn contains_piece(s: &[char], p: &[char]) -> (r: bool)
    ensures
        r == has_piece(s@, p@),
{
    if p.len() > s.len() {
        return false;
    }
    let mut i: usize = 0;
    while i <= s.len() - p.len()
        invariant
            p@.len() <= s@.len(),
            i <= s@.len() - p@.len() + 1,
            forall|j: int| 0 <= j < i ==> #[trigger] s@.subrange(j, j + p@.len()) != p@,
        decreases s@.len() - p@.len() + 1 - i,
    {
        if matches_at(s, i, p) {
            return true;
        }
        i += 1;
    }
    false
}

/// `str::replace(p, t)` on characters, for a non-empty pattern.
pub fn replace_piece(s: &[char], p: &[char], t: &[char]) -> (r: Vec<char>)
    requires
        p@.len() > 0,
    ensures
        r@ == replace_all(s@, p@, t@),
{
    let mut out: Vec<char> = Vec::new();
    let mut i: usize = 0;
    assert(s@.skip(0) =~= s@);
    while i < s.len()
        invariant
            p@.len() > 0,
            i <= s@.len(),
            out@ + replace_all(s@.skip(i as int), p@, t@) == replace_all(s@, p@, t@),
        decreases s@.len() - i,
    {
        let ghost rest = s@.skip(i as int);
        if matches_at(s, i, p) {
            let mut k: usize = 0;
            let ghost before = out@;
            while k < t.len()
                invariant
                    k <= t@.len(),
                    out@ == before + t@.take(k as int),
                decreases t@.len() - k,
            {
                out.push(t[k]);
                assert(t@.take(k as int).push(t@[k as int]) =~= t@.take(k + 1));
                k += 1;
            }
            assert(t@.take(t@.len() as int) =~= t@);
            assert(rest.skip(p@.len() as int) =~= s@.skip(i + p@.len()));
            assert(before + (t@ + replace_all(rest.skip(p@.len() as int), p@, t@)) =~= (before
                + t@) + replace_all(s@.skip(i + p@.len()), p@, t@));
            i += p.len();
        } else {
            let ghost before = out@;
            out.push(s[i]);
            assert(rest.drop_first() =~= s@.skip(i + 1));
            assert(before + (seq![rest[0]] + replace_all(rest.drop_first(), p@, t@)) =~= before.push(
                s@[i as int],
            ) + replace_all(s@.skip(i + 1), p@, t@));
            i += 1;
        }
    }
    assert(s@.skip(s@.len() as int) =~= Seq::<char>::empty());
    assert(out@ + Seq::<char>::empty() =~= out@);
    out
}

proof fn lemma_trim_start_at(s: Seq<char>, a: int)
    requires
        0 <= a <= s.len(),
        forall|i: int| 0 <= i < a ==> is_ws(#[trigger] s[i]),
        a == s.len() || !is_ws(s[a]),
    ensures
        trim_start(s) == s.skip(a),
    decreases a,
{
    if a == 0 {
        assert(s.skip(0) =~= s);
    } else {
        let t = s.drop_first();
        assert forall|i: int| 0 <= i < a - 1 implies is_ws(#[trigger] t[i]) by {
            assert(t[i] == s[i + 1]);
        }
        lemma_trim_start_at(t, a - 1);
        assert(t.skip(a - 1) =~= s.skip(a));
    }
}

proof fn lemma_trim_end_at(s: Seq<char>, b: int)
    requires
        0 <= b <= s.len(),
        forall|i: int| b <= i < s.len() ==> is_ws(#[trigger] s[i]),
        b == 0 || !is_ws(s[b - 1]),
    ensures
        trim_end(s) == s.take(b),
    decreases s.len() - b,
{
    if b == s.len() {
        assert(s.take(b) =~= s);
    } else {
        let t = s.drop_last();
        lemma_trim_end_at(t, b);
        assert(t.take(b) =~= s.take(b));
    }
}

/// `str::trim` on characters.
pub fn trim_chars(s: &[char]) -> (r: Vec<char>)
    ensures
        r@ == trim(s@),
{
    let mut a: usize = 0;
    while a < s.len() && is_whitespace(s[a])
        invariant
            a <= s@.len(),
            forall|i: int| 0 <= i < a ==> is_ws(#[trigger] s@[i]),
        decreases s@.len() - a,
    {
        a += 1;
    }
    proof {
        lemma_trim_start_at(s@, a as int);
    }
    let mut b: usize = s.len();
    while b > a && is_whitespace(s[b - 1])
        invariant
            a <= b <= s@.len(),
            forall|i: int| b <= i < s@.len() ==> is_ws(#[trigger] s@[i]),
        decreases b,
    {
        b -= 1;
    }
    let ghost t = s@.skip(a as int);
    proof {
        assert forall|i: int| b - a <= i < t.len() implies is_ws(#[trigger] t[i]) by {
            assert(t[i] == s@[a + i]);
        }
        if b > a {
            assert(t[b - a - 1] == s@[b - 1]);
        }
        lemma_trim_end_at(t, b - a);
    }
    let mut out: Vec<char> = Vec::new();
    let mut k: usize = a;
    while k < b
        invariant
            a <= k <= b <= s@.len(),
            out@ == s@.subrange(a as int, k as int),
        decreases b - k,
    {
        out.push(s[k]);
        assert(s@.subrange(a as int, k as int).push(s@[k as int]) =~= s@.subrange(
            a as int,
            k + 1,
        ));
        k += 1;
    }
    assert(t.take(b - a) =~= s@.subrange(a as int, b as int));
    out
}


/// The lowercase form of a string, as `str::to_lowercase` computes it
/// (Unicode `Lowercase` mapping, including the context-dependent final sigma).
pub uninterp spec fn lowercase(s: Seq<char>) -> Seq<char>;

/// The uppercase mapping of one character, as `char::to_uppercase` yields it.
pub uninterp spec fn uppercase_char(c: char) -> Seq<char>;

/// Calls `str::to_lowercase`.  Its result is named `lowercase`; nothing more is
/// claimed of it.
#[verifier::external_body]
pub(crate) fn to_lowercase(s: &str) -> (r: String)
    ensures
        r@ == lowercase(s@),
{
    s.to_lowercase()
}

/// Calls `char::to_uppercase` and renders the mapping as a `String`.  Its
/// result is named `uppercase_char`; the documentation promises that the
/// mapping has one or more characters.
#[verifier::external_body]
pub(crate) fn char_to_uppercase(c: char) -> (r: String)
    ensures
        r@ == uppercase_char(c),
        r@.len() >= 1,
{
    c.to_uppercase().to_string()
}

/// `replace_all` with an empty replacement leaves a string unchanged when
/// the pattern is empty.
proof fn lemma_replace_empty_pattern(s: Seq<char>, t: Seq<char>)
    ensures
        replace_all(s, seq![], t) == s,
    decreases s.len(),
{
    if s.len() > 0 {
        lemma_replace_empty_pattern(s.drop_first(), t);
        assert(seq![s[0]] + s.drop_first() =~= s);
    }
}

/// `str::replace(p, "")`: every occurrence of `p` is removed.
pub fn erase_piece(s: &[char], p: &[char]) -> (r: Vec<char>)
    ensures
        r@ == replace_all(s@, p@, seq![]),
{
    if p.len() == 0 {
        proof {
            assert(p@ =~= Seq::<char>::empty());
            lemma_replace_empty_pattern(s@, seq![]);
        }
        let mut out: Vec<char> = Vec::new();
        let mut i: usize = 0;
        while i < s.len()
            invariant
                i <= s@.len(),
                out@ == s@.take(i as int),
            decreases s@.len() - i,
        {
            out.push(s[i]);
            assert(s@.take(i as int).push(s@[i as int]) =~= s@.take(i + 1));
            i += 1;
        }
        assert(s@.take(s@.len() as int) =~= s@);
        out
    } else {
        let empty: Vec<char> = Vec::new();
        assert(empty@ =~= Seq::<char>::empty());
        replace_piece(s, p, empty.as_slice())
    }
}

/// Whether two character sequences are equal.
pub fn same_chars(a: &[char], b: &[char]) -> (r: bool)
    ensures
        r == (a@ == b@),
{
    if a.len() != b.len() {
        return false;
    }
    let mut i: usize = 0;
    while i < a.len()
        invariant
            a@.len() == b@.len(),
            i <= a@.len(),
            forall|j: int| 0 <= j < i ==> a@[j] == b@[j],
        decreases a@.len() - i,
    {
        if a[i] != b[i] {
            return false;
        }
        i += 1;
    }
    assert(a@ =~= b@);
    true
}

/// Whether two strings are equal.
pub fn str_equal(a: &str, b: &str) -> (r: bool)
    ensures
        r == (a@ == b@),
{
    let x = chars_of(a);
    let y = chars_of(b);
    same_chars(x.as_slice(), y.as_slice())
}

/// The code of `c` after ASCII lowercasing (`char::to_ascii_lowercase`).
pub open spec fn ascii_lower(c: char) -> u32 {
    let u = c as u32;
    if 65 <= u && u <= 90 {
        (u + 32) as u32
    } else {
        u
    }
}

/// `str::eq_ignore_ascii_case`.
pub open spec fn eq_ignore_ascii_case(a: Seq<char>, b: Seq<char>) -> bool {
    a.len() == b.len() && forall|i: int| 0 <= i < a.len() ==> ascii_lower(#[trigger] a[i])
        == ascii_lower(b[i])
}

/// Whether `a` and `b` are equal up to ASCII case.
pub fn equal_ignoring_ascii_case(a: &str, b: &str) -> (r: bool)
    ensures
        r == eq_ignore_ascii_case(a@, b@),
{
    let x = chars_of(a);
    let y = chars_of(b);
    if x.len() != y.len() {
        return false;
    }
    let mut i: usize = 0;
    while i < x.len()
        invariant
            x@ == a@,
            y@ == b@,
            x@.len() == y@.len(),
            i <= x@.len(),
            forall|j: int| 0 <= j < i ==> ascii_lower(#[trigger] x@[j]) == ascii_lower(y@[j]),
        decreases x@.len() - i,
    {
        let u = x[i] as u32;
        let v = y[i] as u32;
        let lu = if 65 <= u && u <= 90 { u + 32 } else { u };
        let lv = if 65 <= v && v <= 90 { v + 32 } else { v };
        if lu != lv {
            return false;
        }
        i += 1;
    }
    true
}


/// Appends the characters of `t` to `s` (`String::push_str`).
pub fn append_str(s: &mut String, t: &str)
    ensures
        final(s)@ == old(s)@ + t@,
{
    let v = chars_of(t);
    let ghost start = s@;
    let mut i: usize = 0;
    while i < v.len()
        invariant
            v@ == t@,
            i <= v@.len(),
            s@ == start + v@.take(i as int),
        decreases v@.len() - i,
    {
        push_char(s, v[i]);
        assert((start + v@.take(i as int)).push(v@[i as int]) =~= start + v@.take(i + 1));
        i += 1;
    }
    assert(v@.take(v@.len() as int) =~= v@);
}


/// `b` is a single word: non-empty, without whitespace.
pub open spec fn is_word(b: Seq<char>) -> bool {
    b.len() > 0 && forall|i: int| 0 <= i < b.len() ==> !is_ws(#[trigger] b[i])
}

proof fn lemma_words_of_word(b: Seq<char>)
    requires
        is_word(b),
    ensures
        words(b) == seq![b],
    decreases b.len(),
{
    let c = b.last();
    assert(!is_ws(b[b.len() - 1]));
    let e = b.drop_last();
    if b.len() == 1 {
        assert(e =~= Seq::<char>::empty());
        assert(words(e) == Seq::<Seq<char>>::empty());
        assert(words(b) == words(e).push(seq![c]));
        assert(seq![c] =~= b);
        assert(words(e).push(seq![c]) =~= seq![b]);
    } else {
        assert forall|i: int| 0 <= i < e.len() implies !is_ws(#[trigger] e[i]) by {
            assert(e[i] == b[i]);
        }
        lemma_words_of_word(e);
        let w = words(e);
        assert(!is_ws(b[b.len() - 2]));
        assert(words(b) == w.drop_last().push(w.last().push(c)));
        assert(w.drop_last() =~= Seq::<Seq<char>>::empty());
        assert(w.last() == e);
        assert(e.push(c) =~= b);
        assert(w.drop_last().push(w.last().push(c)) =~= seq![b]);
    }
}

proof fn lemma_words_space_word(s: Seq<char>, b: Seq<char>)
    requires
        is_word(b),
    ensures
        words(s + seq![' '] + b) == words(s).push(b),
    decreases b.len(),
{
    let t = s + seq![' '] + b;
    let c = b.last();
    assert(is_ws(' '));
    assert(!is_ws(b[b.len() - 1]));
    assert(t.last() == c);
    if b.len() == 1 {
        let u = s + seq![' '];
        assert(t.drop_last() =~= u);
        assert(u.drop_last() =~= s);
        assert(u.last() == ' ');
        assert(words(u) == words(s));
        assert(t[t.len() - 2] == ' ');
        assert(words(t) == words(u).push(seq![c]));
        assert(seq![c] =~= b);
    } else {
        let e = b.drop_last();
        assert forall|i: int| 0 <= i < e.len() implies !is_ws(#[trigger] e[i]) by {
            assert(e[i] == b[i]);
        }
        lemma_words_space_word(s, e);
        assert(t.drop_last() =~= s + seq![' '] + e);
        assert(t[t.len() - 2] == b[b.len() - 2]);
        assert(!is_ws(b[b.len() - 2]));
        let w = words(s).push(e);
        assert(words(t) == w.drop_last().push(w.last().push(c)));
        assert(w.drop_last() =~= words(s));
        assert(e.push(c) =~= b);
    }
}

/// Splitting words joined by single spaces gives the words back.
pub proof fn lemma_words_of_spaced(ws: Seq<Seq<char>>)
    requires
        forall|i: int| 0 <= i < ws.len() ==> is_word(#[trigger] ws[i]),
    ensures
        words(join(ws, seq![' '])) == ws,
    decreases ws.len(),
{
    if ws.len() == 0 {
    } else if ws.len() == 1 {
        lemma_words_of_word(ws[0]);
        assert(seq![ws[0]] =~= ws);
    } else {
        lemma_words_of_spaced(ws.drop_last());
        lemma_words_space_word(join(ws.drop_last(), seq![' ']), ws.last());
        assert(ws.drop_last().push(ws.last()) =~= ws);
    }
}

/// Collapsing whitespace twice is the same as collapsing it once.
pub proof fn lemma_collapse_idempotent(s: Seq<char>)
    ensures
        join(words(join(words(s), seq![' '])), seq![' ']) == join(words(s), seq![' ']),
{
    lemma_words_shape(s);
    assert forall|i: int| 0 <= i < words(s).len() implies is_word(#[trigger] words(s)[i]) by {
        assert(words(s)[i].len() > 0);
        assert forall|j: int| 0 <= j < words(s)[i].len() implies !is_ws(#[trigger] words(s)[i][j]) by {
        }
    }
    lemma_words_of_spaced(words(s));
}


/// `s` has no whitespace character.
pub open spec fn no_ws(s: Seq<char>) -> bool {
    forall|i: int| 0 <= i < s.len() ==> !is_ws(#[trigger] s[i])
}

/// Words joined with a separator free of whitespace contain no whitespace.
pub proof fn lemma_join_words_no_ws(s: Seq<char>, sep: Seq<char>)
    requires
        no_ws(sep),
    ensures
        no_ws(join(words(s), sep)),
{
    lemma_words_shape(s);
    let ws = words(s);
    assert forall|i: int| 0 <= i < ws.len() implies no_ws(#[trigger] ws[i]) by {
        assert forall|j: int| 0 <= j < ws[i].len() implies !is_ws(#[trigger] ws[i][j]) by {}
    }
    lemma_join_no_ws(ws, sep);
}

proof fn lemma_join_no_ws(ws: Seq<Seq<char>>, sep: Seq<char>)
    requires
        no_ws(sep),
        forall|i: int| 0 <= i < ws.len() ==> no_ws(#[trigger] ws[i]),
    ensures
        no_ws(join(ws, sep)),
    decreases ws.len(),
{
    if ws.len() == 1 {
        assert(no_ws(ws[0]));
    } else if ws.len() > 1 {
        let init = ws.drop_last();
        assert forall|i: int| 0 <= i < init.len() implies no_ws(#[trigger] init[i]) by {
            assert(init[i] == ws[i]);
        }
        lemma_join_no_ws(init, sep);
        let a = join(init, sep);
        let l = ws.last();
        assert(no_ws(l));
        let t = a + sep + l;
        assert forall|i: int| 0 <= i < t.len() implies !is_ws(#[trigger] t[i]) by {
            if i < a.len() {
                assert(t[i] == a[i]);
            } else if i < a.len() + sep.len() {
                assert(t[i] == sep[i - a.len()]);
            } else {
                assert(t[i] == l[i - a.len() - sep.len()]);
            }
        }
    }
}


/// `s` is in collapsed form: it neither starts nor ends with whitespace, and
/// its only whitespace characters are single spaces between non-whitespace
/// characters.
pub open spec fn is_collapsed(s: Seq<char>) -> bool {
    forall|i: int|
        0 <= i < s.len() && is_ws(#[trigger] s[i]) ==> s[i] == ' ' && 0 < i < s.len() - 1 && !is_ws(
            s[i - 1],
        ) && !is_ws(s[i + 1])
}

/// Text in collapsed form is its own whitespace collapse.
pub proof fn lemma_collapsed_fixed(s: Seq<char>)
    requires
        is_collapsed(s),
    ensures
        join(words(s), seq![' ']) == s,
    decreases s.len(),
{
    if s.len() > 0 {
        let n = s.len();
        let c = s.last();
        if is_ws(s[n - 1]) {
            assert(false);
        }
        let t = s.drop_last();
        if t.len() == 0 {
            assert(words(t) == Seq::<Seq<char>>::empty());
            assert(words(s) == words(t).push(seq![c]));
            assert(words(s) =~= seq![seq![c]]);
            assert(seq![c] =~= s);
        } else if !is_ws(t.last()) {
            assert forall|i: int| 0 <= i < t.len() && is_ws(#[trigger] t[i]) implies t[i] == ' ' && 0
                < i < t.len() - 1 && !is_ws(t[i - 1]) && !is_ws(t[i + 1]) by {
                assert(t[i] == s[i]);
                assert(s[i + 1] == t[i + 1] || i + 1 == t.len());
            }
            lemma_collapsed_fixed(t);
            lemma_words_nonempty(t);
            assert(s[n - 2] == t.last());
            lemma_join_extend_last(words(t), c, seq![' ']);
            assert(t.push(c) =~= s);
        } else {
            assert(is_ws(s[n - 2]));
            let t2 = t.drop_last();
            assert(s[n - 2] == ' ');
            assert(!is_ws(s[n - 3]));
            assert forall|i: int| 0 <= i < t2.len() && is_ws(#[trigger] t2[i]) implies t2[i] == ' '
                && 0 < i < t2.len() - 1 && !is_ws(t2[i - 1]) && !is_ws(t2[i + 1]) by {
                assert(t2[i] == s[i]);
                assert(i != n - 3);
                assert(t2[i + 1] == s[i + 1]);
                assert(t2[i - 1] == s[i - 1]);
            }
            lemma_collapsed_fixed(t2);
            assert(t2.len() > 0 && t2.last() == s[n - 3]);
            lemma_words_nonempty(t2);
            assert(t.drop_last() =~= t2);
            assert(words(t) == words(t2));
            assert(words(s) == words(t).push(seq![c]));
            lemma_join_push(words(t2), seq![c], seq![' ']);
            assert(t2 + seq![' '] + seq![c] =~= s);
        }
    }
}

/// Words joined by single spaces are in collapsed form.
pub proof fn lemma_spaced_collapsed(ws: Seq<Seq<char>>)
    requires
        forall|i: int| 0 <= i < ws.len() ==> is_word(#[trigger] ws[i]),
    ensures
        is_collapsed(join(ws, seq![' '])),
        ws.len() > 0 ==> join(ws, seq![' ']).len() > 0,
    decreases ws.len(),
{
    if ws.len() == 1 {
        assert(is_word(ws[0]));
    } else if ws.len() > 1 {
        let init = ws.drop_last();
        assert forall|i: int| 0 <= i < init.len() implies is_word(#[trigger] init[i]) by {
            assert(init[i] == ws[i]);
        }
        lemma_spaced_collapsed(init);
        let a = join(init, seq![' ']);
        let l = ws.last();
        assert(is_word(l));
        let t = a + seq![' '] + l;
        assert(a.len() > 0);
        if is_ws(a[a.len() - 1]) {
            assert(false);
        }
        assert forall|i: int| 0 <= i < t.len() && is_ws(#[trigger] t[i]) implies t[i] == ' ' && 0 < i
            < t.len() - 1 && !is_ws(t[i - 1]) && !is_ws(t[i + 1]) by {
            if i < a.len() {
                assert(t[i] == a[i]);
                assert(t[i - 1] == a[i - 1]);
                assert(t[i + 1] == a[i + 1]);
            } else if i == a.len() {
                assert(t[i - 1] == a[a.len() - 1]);
                assert(t[i + 1] == l[0]);
            } else {
                assert(t[i] == l[i - a.len() - 1]);
            }
        }
    }
}

/// The whitespace collapse of any text is in collapsed form.
pub proof fn lemma_collapse_is_collapsed(s: Seq<char>)
    ensures
        is_collapsed(join(words(s), seq![' '])),
{
    lemma_words_shape(s);
    assert forall|i: int| 0 <= i < words(s).len() implies is_word(#[trigger] words(s)[i]) by {
        assert(words(s)[i].len() > 0);
        assert forall|j: int| 0 <= j < words(s)[i].len() implies !is_ws(#[trigger] words(s)[i][j]) by {}
    }
    lemma_spaced_collapsed(words(s));
}

} // verus!
