//! Character-level text utilities: splitting on a separator, splitting into
//! whitespace-separated words, comment stripping and decimal formatting,
//! each with the mathematical definition it is proved against.
use vstd::prelude::*;

verus! {

// ---------------------------------------------------------------------
// Specifications
// ---------------------------------------------------------------------

/// The Unicode `White_Space` property, which is what `char::is_whitespace`
/// and `str::split_whitespace` go by.
pub open spec fn is_ws(c: char) -> bool {
    ||| '\u{9}' <= c <= '\u{d}'
    ||| c == ' '
    ||| c == '\u{85}'
    ||| c == '\u{a0}'
    ||| c == '\u{1680}'
    ||| '\u{2000}' <= c <= '\u{200a}'
    ||| c == '\u{2028}'
    ||| c == '\u{2029}'
    ||| c == '\u{202f}'
    ||| c == '\u{205f}'
    ||| c == '\u{3000}'
}

/// ASCII letters and digits.
pub open spec fn is_ascii_alnum(c: char) -> bool {
    ||| 'A' <= c <= 'Z'
    ||| 'a' <= c <= 'z'
    ||| '0' <= c <= '9'
}

/// ASCII decimal digits.
pub open spec fn is_ascii_digit(c: char) -> bool {
    '0' <= c <= '9'
}

/// The pieces of `s` between occurrences of `sep`, as `str::split` yields
/// them: always at least one piece, empty pieces included.
pub open spec fn split_seq(s: Seq<char>, sep: char) -> Seq<Seq<char>>
    decreases s.len(),
{
    if s.len() == 0 {
        seq![Seq::<char>::empty()]
    } else {
        let p = split_seq(s.drop_last(), sep);
        if s.last() == sep {
            p.push(Seq::<char>::empty())
        } else {
            p.update(p.len() - 1, p.last().push(s.last()))
        }
    }
}

/// The pieces joined by `/`: the inverse of splitting on `/`.
pub open spec fn join_path(xs: Seq<Seq<char>>) -> Seq<char>
    decreases xs.len(),
{
    if xs.len() == 0 {
        Seq::<char>::empty()
    } else if xs.len() == 1 {
        xs[0]
    } else {
        join_path(xs.drop_last()) + seq!['/'] + xs.last()
    }
}

/// The pieces, each preceded by a `/`.
pub open spec fn slash_prefixed(xs: Seq<Seq<char>>) -> Seq<char>
    decreases xs.len(),
{
    if xs.len() == 0 {
        Seq::<char>::empty()
    } else {
        slash_prefixed(xs.drop_last()) + seq!['/'] + xs.last()
    }
}

/// The maximal runs of non-whitespace characters of `s`, in order, as
/// `str::split_whitespace` yields them.
pub open spec fn words(s: Seq<char>) -> Seq<Seq<char>>
    decreases s.len(),
{
    if s.len() == 0 {
        Seq::<Seq<char>>::empty()
    } else {
        let w = words(s.drop_last());
        let c = s.last();
        if is_ws(c) {
            w
        } else if s.len() >= 2 && !is_ws(s[s.len() - 2]) {
            w.update(w.len() - 1, w.last().push(c))
        } else {
            w.push(seq![c])
        }
    }
}

/// The index of the first `#` in `s`, or its length where there is none.
pub open spec fn hash_index(s: Seq<char>) -> nat
    decreases s.len(),
{
    if s.len() == 0 {
        0
    } else if s[0] == '#' {
        0
    } else {
        1 + hash_index(s.drop_first())
    }
}

/// `s` cut at its first `#`.
pub open spec fn strip_comment(s: Seq<char>) -> Seq<char> {
    s.take(hash_index(s) as int)
}

/// `s` without the `/` characters it starts with.
pub open spec fn strip_leading_slashes(s: Seq<char>) -> Seq<char>
    decreases s.len(),
{
    if s.len() == 0 {
        s
    } else {
        let p = strip_leading_slashes(s.drop_last());
        if p.len() == 0 && s.last() == '/' {
            p
        } else {
            p.push(s.last())
        }
    }
}

/// The character of a decimal digit `0 <= d < 10`.
pub open spec fn digit_char(d: int) -> char {
    (d + 48) as char
}

/// The decimal digits of `n`, most significant first, without leading zeros.
pub open spec fn nat_digits(n: nat) -> Seq<char>
    decreases n,
{
    if n < 10 {
        seq![digit_char(n as int)]
    } else {
        nat_digits(n / 10).push(digit_char((n % 10) as int))
    }
}

/// The decimal representation of `i`, as `i64::to_string` writes it.
pub open spec fn decimal(i: int) -> Seq<char> {
    if i < 0 {
        seq!['-'] + nat_digits((-i) as nat)
    } else {
        nat_digits(i as nat)
    }
}

/// The views of a vector of character vectors.
pub open spec fn char_vecs_view(v: Seq<Vec<char>>) -> Seq<Seq<char>> {
    v.map_values(|x: Vec<char>| x@)
}

// ---------------------------------------------------------------------
// Lemmas
// ---------------------------------------------------------------------

/// `str::split` never yields zero pieces.
pub proof fn lemma_split_nonempty(s: Seq<char>, sep: char)
    ensures
        split_seq(s, sep).len() >= 1,
    decreases s.len(),
{
    if s.len() > 0 {
        lemma_split_nonempty(s.drop_last(), sep);
    }
}

/// Joining the pieces of a split on `/` with `/` gives the text back.
pub proof fn lemma_join_split(s: Seq<char>)
    ensures
        join_path(split_seq(s, '/')) == s,
    decreases s.len(),
{
    if s.len() > 0 {
        let t = s.drop_last();
        let x = s.last();
        lemma_join_split(t);
        lemma_split_nonempty(t, '/');
        let p = split_seq(t, '/');
        let q = split_seq(s, '/');
        if x == '/' {
            assert(q.drop_last() == p);
            assert(join_path(q) == t + seq!['/'] + Seq::<char>::empty());
            assert(t + seq!['/'] + Seq::<char>::empty() =~= s);
        } else {
            let c = p.last();
            assert(q.last() == c.push(x));
            if p.len() == 1 {
                assert(join_path(q) == c.push(x));
                assert(c == t);
                assert(c.push(x) =~= s);
            } else {
                assert(q.drop_last() == p.drop_last());
                assert(join_path(p) == join_path(p.drop_last()) + seq!['/'] + c);
                assert(join_path(q) == join_path(p.drop_last()) + seq!['/'] + c.push(x));
                assert(join_path(p.drop_last()) + seq!['/'] + c.push(x) =~= (join_path(
                    p.drop_last(),
                ) + seq!['/'] + c).push(x));
                assert(t.push(x) =~= s);
            }
        }
    } else {
        assert(split_seq(s, '/') == seq![Seq::<char>::empty()]);
    }
}

/// A text without the separator splits into itself alone.
pub proof fn lemma_split_whole(s: Seq<char>, sep: char)
    requires
        !s.contains(sep),
    ensures
        split_seq(s, sep) == seq![s],
    decreases s.len(),
{
    if s.len() > 0 {
        let t = s.drop_last();
        assert(!t.contains(sep)) by {
            if t.contains(sep) {
                let k = choose|k: int| 0 <= k < t.len() && t[k] == sep;
                assert(s[k] == sep);
            }
        }
        lemma_split_whole(t, sep);
        assert(s.last() != sep) by {
            assert(s[s.len() - 1] == s.last());
        }
        assert(t.push(s.last()) =~= s);
        assert(split_seq(s, sep) =~= seq![s]);
    } else {
        assert(s =~= Seq::<char>::empty());
    }
}

/// No piece of a split holds the separator.
pub proof fn lemma_split_no_sep(s: Seq<char>, sep: char)
    ensures
        forall|i: int, k: int|
            0 <= i < split_seq(s, sep).len() && 0 <= k < split_seq(s, sep)[i].len()
                ==> split_seq(s, sep)[i][k] != sep,
    decreases s.len(),
{
    if s.len() > 0 {
        lemma_split_no_sep(s.drop_last(), sep);
        lemma_split_nonempty(s.drop_last(), sep);
        let p = split_seq(s.drop_last(), sep);
        let q = split_seq(s, sep);
        assert forall|i: int, k: int| 0 <= i < q.len() && 0 <= k < q[i].len() implies q[i][k]
            != sep by {
            if s.last() == sep {
                if i < p.len() {
                    assert(q[i] == p[i]);
                }
            } else {
                if i < p.len() - 1 {
                    assert(q[i] == p[i]);
                } else if k < p.last().len() {
                    assert(q[i][k] == p[p.len() - 1][k]);
                }
            }
        }
    }
}

/// Joining two nonempty runs of pieces: the second run's pieces each follow
/// a `/`.
pub proof fn lemma_join_append(xs: Seq<Seq<char>>, ys: Seq<Seq<char>>)
    requires
        xs.len() >= 1,
    ensures
        join_path(xs + ys) == join_path(xs) + slash_prefixed(ys),
    decreases ys.len(),
{
    if ys.len() == 0 {
        assert(xs + ys == xs);
    } else {
        lemma_join_append(xs, ys.drop_last());
        assert((xs + ys).drop_last() == xs + ys.drop_last());
        assert((xs + ys).last() == ys.last());
        assert(join_path(xs) + slash_prefixed(ys.drop_last()) + seq!['/'] + ys.last()
            =~= join_path(xs) + slash_prefixed(ys));
    }
}

/// Every word is non-empty and holds no whitespace.
pub proof fn law_words_shape(s: Seq<char>)
    ensures
        forall|i: int| 0 <= i < words(s).len() ==> (#[trigger] words(s)[i]).len() > 0,
        forall|i: int, k: int|
            0 <= i < words(s).len() && 0 <= k < words(s)[i].len() ==> !is_ws(
                #[trigger] words(s)[i][k],
            ),
    decreases s.len(),
{
    if s.len() > 0 {
        let t = s.drop_last();
        law_words_shape(t);
        let w = words(t);
        let c = s.last();
        if !is_ws(c) && s.len() >= 2 && !is_ws(s[s.len() - 2]) {
            assert(t.last() == s[s.len() - 2]);
            lemma_words_nonempty(t);
        }
        assert forall|i: int, k: int|
            0 <= i < words(s).len() && 0 <= k < words(s)[i].len() implies !is_ws(
            #[trigger] words(s)[i][k],
        ) by {
            if !is_ws(c) && s.len() >= 2 && !is_ws(s[s.len() - 2]) && i == w.len() - 1 {
                if k < w[i].len() {
                    assert(words(s)[i][k] == w[i][k]);
                }
            } else if i < w.len() {
                assert(words(s)[i] == w[i]);
            }
        }
        assert forall|i: int| 0 <= i < words(s).len() implies (#[trigger] words(s)[i]).len()
            > 0 by {
            if i < w.len() && !(!is_ws(c) && s.len() >= 2 && !is_ws(s[s.len() - 2]) && i == w.len()
                - 1) {
                assert(words(s)[i] == w[i]);
            }
        }
    }
}

/// A string that ends in a non-whitespace character has a word.
proof fn lemma_words_nonempty(s: Seq<char>)
    requires
        s.len() > 0,
        !is_ws(s.last()),
    ensures
        words(s).len() >= 1,
    decreases s.len(),
{
    if s.len() >= 2 && !is_ws(s[s.len() - 2]) {
        assert(s.drop_last().last() == s[s.len() - 2]);
        lemma_words_nonempty(s.drop_last());
    }
}

/// Cutting a line at its comment keeps the text before the first `#`: a
/// prefix of the line without any `#`, followed in the line by `#` or by
/// nothing.
pub proof fn law_strip_comment(line: Seq<char>)
    ensures
        strip_comment(line).len() <= line.len(),
        strip_comment(line) == line.take(strip_comment(line).len() as int),
        !strip_comment(line).contains('#'),
        strip_comment(line).len() < line.len() ==> line[strip_comment(line).len() as int] == '#',
{
    lemma_hash_index_bound(line);
    let r = strip_comment(line);
    if r.contains('#') {
        let k = choose|k: int| 0 <= k < r.len() && r[k] == '#';
        assert(line[k] == '#');
    }
}

/// The number that a sequence of decimal digits writes.
pub open spec fn digits_value(s: Seq<char>) -> int
    decreases s.len(),
{
    if s.len() == 0 {
        0
    } else {
        digits_value(s.drop_last()) * 10 + (s.last() as int - 48)
    }
}

/// The decimal digits of `n` are digits, without a leading zero, and they
/// write `n`; a negative number is written as `-` and the digits of its
/// magnitude.
pub proof fn law_decimal(n: nat)
    ensures
        nat_digits(n).len() > 0,
        forall|i: int| 0 <= i < nat_digits(n).len() ==> is_ascii_digit(#[trigger] nat_digits(n)[i]),
        nat_digits(n).len() > 1 ==> nat_digits(n)[0] != '0',
        digits_value(nat_digits(n)) == n,
        decimal(n as int) == nat_digits(n),
        n > 0 ==> decimal(-(n as int)) == seq!['-'] + nat_digits(n),
    decreases n,
{
    if n < 10 {
        let d = nat_digits(n);
        assert(d.drop_last() =~= Seq::<char>::empty());
        assert(digit_char(n as int) as int == n + 48);
        assert(digits_value(d.drop_last()) == 0);
        assert(d.last() == digit_char(n as int));
        assert(digits_value(d) == n);
    }
    if n >= 10 {
        law_decimal(n / 10);
        let d = nat_digits(n);
        assert(d.drop_last() == nat_digits(n / 10));
        assert forall|i: int| 0 <= i < d.len() implies is_ascii_digit(#[trigger] d[i]) by {
            if i < d.len() - 1 {
                assert(d[i] == nat_digits(n / 10)[i]);
            }
        }
        if n / 10 >= 10 {
            law_decimal(n / 100);
            assert(nat_digits(n / 10).len() == nat_digits(n / 10 / 10).len() + 1);
            assert(d[0] == nat_digits(n / 10)[0]);
        } else {
            assert(d[0] == digit_char((n / 10) as int));
            assert(n / 10 >= 1);
        }
        let last = (n % 10) as int;
        assert(d.last() == digit_char(last));
        assert(digit_char(last) as int == last + 48);
        assert(digits_value(d) == digits_value(nat_digits(n / 10)) * 10 + (n % 10));
        assert(n == (n / 10) * 10 + n % 10);
        assert(digits_value(nat_digits(n / 10)) == n / 10);
        assert(digits_value(d) == n);
    }
}

/// Two numbers with the same decimal representation are equal.
pub proof fn law_decimal_injective(a: int, b: int)
    ensures
        decimal(a) == decimal(b) <==> a == b,
{
    if decimal(a) == decimal(b) {
        let na: nat = if a < 0 { (-a) as nat } else { a as nat };
        let nb: nat = if b < 0 { (-b) as nat } else { b as nat };
        law_decimal(na);
        law_decimal(nb);
        assert(!is_ascii_digit('-'));
        if a < 0 && b >= 0 {
            assert(decimal(a)[0] == '-');
            assert(is_ascii_digit(nat_digits(nb)[0]));
        } else if a >= 0 && b < 0 {
            assert(decimal(b)[0] == '-');
            assert(is_ascii_digit(nat_digits(na)[0]));
        } else if a < 0 && b < 0 {
            assert(nat_digits(na) =~= decimal(a).skip(1));
            assert(nat_digits(nb) =~= decimal(b).skip(1));
        }
        assert(na == nb);
    }
}

proof fn lemma_hash_index_bound(s: Seq<char>)
    ensures
        hash_index(s) <= s.len(),
        hash_index(s) < s.len() ==> s[hash_index(s) as int] == '#',
        forall|j: int| 0 <= j < hash_index(s) ==> s[j] != '#',
    decreases s.len(),
{
    if s.len() > 0 && s[0] != '#' {
        lemma_hash_index_bound(s.drop_first());
        assert forall|j: int| 0 <= j < hash_index(s) implies s[j] != '#' by {
            if j > 0 {
                assert(s[j] == s.drop_first()[j - 1]);
            }
        }
    }
}

// ---------------------------------------------------------------------
// Executable functions
// ---------------------------------------------------------------------

/// `String::push`: the string's characters afterwards are those before,
/// followed by `c`.
#[verifier::external_body]
pub(crate) fn push_char(s: &mut String, c: char)
    ensures
        final(s)@ == old(s)@.push(c),
{
    s.push(c);
}

/// Appends the characters of a slice to a string.
pub(crate) fn push_chars(s: &mut String, cs: &[char])
    ensures
        final(s)@ == old(s)@ + cs@,
{
    let ghost start = s@;
    let mut i: usize = 0;
    while i < cs.len()
        invariant
            i <= cs@.len(),
            s@ == start + cs@.take(i as int),
        decreases cs@.len() - i,
    {
        push_char(s, cs[i]);
        i = i + 1;
        assert(cs@.take(i as int) == cs@.take((i - 1) as int).push(cs@[i - 1]));
    }
    assert(cs@.take(i as int) == cs@);
}

/// A string holding the characters of a slice.
pub(crate) fn string_of(cs: &[char]) -> (r: String)
    ensures
        r@ == cs@,
{
    let mut s = String::new();
    push_chars(&mut s, cs);
    s
}

/// The characters of `s`, in order.
pub(crate) fn chars_of(s: &str) -> (r: Vec<char>)
    ensures
        r@ == s@,
{
    let mut out: Vec<char> = Vec::new();
    for c in it: s.chars()
        invariant
            out@ == it.seq().take(it.index() as int),
            it.seq() == s@,
    {
        out.push(c);
    }
    out
}

/// Whether the characters `cs` spell `t`.
pub(crate) fn matches_text(cs: &Vec<char>, t: &str) -> (r: bool)
    ensures
        r == (cs@ == t@),
{
    let ts = chars_of(t);
    if cs.len() != ts.len() {
        return false;
    }
    let mut i: usize = 0;
    while i < cs.len()
        invariant
            cs@.len() == ts@.len(),
            ts@ == t@,
            i <= cs@.len(),
            forall|j: int| 0 <= j < i ==> cs@[j] == ts@[j],
        decreases cs@.len() - i,
    {
        if cs[i] != ts[i] {
            return false;
        }
        i = i + 1;
    }
    assert(cs@ == ts@);
    true
}

/// Whether `c` is a whitespace character.
pub fn is_whitespace(c: char) -> (r: bool)
    ensures
        r == is_ws(c),
{
    ('\u{9}' <= c && c <= '\u{d}') || c == ' ' || c == '\u{85}' || c == '\u{a0}'
        || c == '\u{1680}' || ('\u{2000}' <= c && c <= '\u{200a}') || c == '\u{2028}'
        || c == '\u{2029}' || c == '\u{202f}' || c == '\u{205f}' || c == '\u{3000}'
}

/// Whether `c` occurs in `s`.
pub fn contains_char(s: &[char], c: char) -> (r: bool)
    ensures
        r == s@.contains(c),
{
    let mut i: usize = 0;
    while i < s.len()
        invariant
            i <= s@.len(),
            forall|j: int| 0 <= j < i ==> s@[j] != c,
        decreases s@.len() - i,
    {
        if s[i] == c {
            return true;
        }
        i = i + 1;
    }
    false
}

/// Splits `s` at every occurrence of `sep`.
pub fn split_on(s: &[char], sep: char) -> (r: Vec<Vec<char>>)
    ensures
        char_vecs_view(r@) == split_seq(s@, sep),
{
    let mut parts: Vec<Vec<char>> = Vec::new();
    let mut cur: Vec<char> = Vec::new();
    let mut i: usize = 0;
    assert(s@.take(0) == Seq::<char>::empty());
    assert(char_vecs_view(parts@).push(cur@) == split_seq(Seq::<char>::empty(), sep));
    while i < s.len()
        invariant
            i <= s@.len(),
            split_seq(s@.take(i as int), sep) == char_vecs_view(parts@).push(cur@),
        decreases s@.len() - i,
    {
        let c = s[i];
        let ghost prefix = s@.take((i + 1) as int);
        assert(prefix.drop_last() == s@.take(i as int));
        if c == sep {
            let done = cur;
            parts.push(done);
            cur = Vec::new();
        } else {
            cur.push(c);
        }
        i = i + 1;
        assert(split_seq(s@.take(i as int), sep) == char_vecs_view(parts@).push(cur@));
    }
    assert(s@.take(s@.len() as int) == s@);
    parts.push(cur);
    assert(char_vecs_view(parts@) == split_seq(s@, sep));
    parts
}

/// The whitespace-separated words of `s`.
pub fn split_words(s: &[char]) -> (r: Vec<Vec<char>>)
    ensures
        char_vecs_view(r@) == words(s@),
{
    let mut out: Vec<Vec<char>> = Vec::new();
    let mut cur: Vec<char> = Vec::new();
    let mut in_word = false;
    let mut i: usize = 0;
    assert(s@.take(0) == Seq::<char>::empty());
    while i < s.len()
        invariant
            i <= s@.len(),
            in_word == (i > 0 && !is_ws(s@[i - 1])),
            !in_word ==> cur@.len() == 0,
            words(s@.take(i as int)) == if in_word {
                char_vecs_view(out@).push(cur@)
            } else {
                char_vecs_view(out@)
            },
        decreases s@.len() - i,
    {
        let c = s[i];
        let ghost prefix = s@.take((i + 1) as int);
        assert(prefix.drop_last() == s@.take(i as int));
        assert(prefix.last() == c);
        let ghost old_out = out@;
        let ghost old_cur = cur@;
        if is_whitespace(c) {
            if in_word {
                let done = cur;
                out.push(done);
                cur = Vec::new();
                assert(char_vecs_view(out@) == char_vecs_view(old_out).push(old_cur));
            }
            in_word = false;
        } else {
            if i > 0 {
                assert(prefix[prefix.len() - 2] == s@[i - 1]);
            }
            cur.push(c);
            if !in_word {
                assert(cur@ == seq![c]);
            } else {
                assert(words(prefix) == char_vecs_view(out@).push(cur@));
            }
            in_word = true;
        }
        i = i + 1;
    }
    assert(s@.take(s@.len() as int) == s@);
    if in_word {
        out.push(cur);
    }
    out
}

/// The length of `s` up to its first `#`.
pub fn comment_start(s: &[char]) -> (r: usize)
    ensures
        r == hash_index(s@),
        r <= s@.len(),
{
    proof {
        lemma_hash_index_bound(s@);
    }
    let mut i: usize = 0;
    assert(s@.skip(0) == s@);
    while i < s.len()
        invariant
            i <= s@.len(),
            forall|j: int| 0 <= j < i ==> s@[j] != '#',
            hash_index(s@) == i + hash_index(s@.skip(i as int)),
        decreases s@.len() - i,
    {
        if s[i] == '#' {
            assert(hash_index(s@.skip(i as int)) == 0);
            return i;
        }
        assert(s@.skip(i as int).drop_first() == s@.skip((i + 1) as int));
        i = i + 1;
    }
    assert(s@.skip(i as int).len() == 0);
    i
}

/// Appends the decimal digits of `n`.
fn push_digits(s: &mut String, n: u64)
    ensures
        final(s)@ == old(s)@ + nat_digits(n as nat),
    decreases n,
{
    if n >= 10 {
        push_digits(s, n / 10);
    }
    let d: u8 = (n % 10) as u8;
    let c: char = (48u8 + d) as char;
    push_char(s, c);
}

/// Appends the decimal representation of `i`.
pub(crate) fn push_decimal(s: &mut String, i: i64)
    ensures
        final(s)@ == old(s)@ + decimal(i as int),
{
    if i < 0 {
        push_char(s, '-');
        let wide: i128 = i as i128;
        let magnitude: u64 = (0i128 - wide) as u64;
        push_digits(s, magnitude);
    } else {
        push_digits(s, i as u64);
    }
}

} // verus!
