use vstd::prelude::*;

verus! {

/// The characters of a string slice, in order.
pub fn chars_of(s: &str) -> (v: Vec<char>)
    ensures
        v@ == s@,
{
    let mut v: Vec<char> = Vec::new();
    broadcast use vstd::string::group_string_axioms;
    for c in it: s.chars()
        invariant
            v@ == it.seq().take(it.index() as int),
            it.seq() == s@,
    {
        v.push(c);
    }
    v
}

/// Appends one character to a string.
#[verifier::external_body]
pub(crate) fn push_char(s: &mut String, c: char)
    ensures
        final(s)@ == old(s)@.push(c),
{
    s.push(c);
}

/// Builds a string from characters.
pub fn string_of(v: &[char]) -> (s: String)
    ensures
        s@ == v@,
{
    let mut s = String::new();
    let mut i: usize = 0;
    while i < v.len()
        invariant
            i <= v.len(),
            s@ == v@.subrange(0, i as int),
        decreases v.len() - i,
    {
        push_char(&mut s, v[i]);
        i += 1;
    }
    s
}

/// Whether two character sequences are equal.
pub fn chars_eq(a: &[char], b: &[char]) -> (r: bool)
    ensures
        r == (a@ == b@),
{
    if a.len() != b.len() {
        return false;
    }
    let mut i: usize = 0;
    while i < a.len()
        invariant
            i <= a.len(),
            a.len() == b.len(),
            forall|j: int| 0 <= j < i ==> a@[j] == b@[j],
        decreases a.len() - i,
    {
        if a[i] != b[i] {
            return false;
        }
        i += 1;
    }
    proof {
        assert(a@ =~= b@);
    }
    true
}

/// Whether two string slices hold the same characters.
pub fn str_eq(a: &str, b: &str) -> (r: bool)
    ensures
        r == (a@ == b@),
{
    let x = chars_of(a);
    let y = chars_of(b);
    chars_eq(x.as_slice(), y.as_slice())
}

/// A character with the Unicode `White_Space` property.
pub open spec fn is_ws(c: char) -> bool {
    ||| ('\u{9}' <= c && c <= '\u{d}')
    ||| c == ' '
    ||| c == '\u{85}'
    ||| c == '\u{a0}'
    ||| c == '\u{1680}'
    ||| ('\u{2000}' <= c && c <= '\u{200a}')
    ||| c == '\u{2028}'
    ||| c == '\u{2029}'
    ||| c == '\u{202f}'
    ||| c == '\u{205f}'
    ||| c == '\u{3000}'
}

/// Whether `c` is white space (exec form of [`is_ws`]).
pub fn is_whitespace(c: char) -> (r: bool)
    ensures
        r == is_ws(c),
{
    ('\u{9}' <= c && c <= '\u{d}') || c == ' ' || c == '\u{85}' || c == '\u{a0}' || c == '\u{1680}'
        || ('\u{2000}' <= c && c <= '\u{200a}') || c == '\u{2028}' || c == '\u{2029}' || c == '\u{202f}'
        || c == '\u{205f}' || c == '\u{3000}'
}

/// Index of the first character at or after `i` that is not white space
/// (the length when there is none).
pub open spec fn first_non_ws(s: Seq<char>, i: int) -> int
    decreases s.len() - i,
{
    if i < 0 || i >= s.len() {
        i
    } else if is_ws(s[i]) {
        first_non_ws(s, i + 1)
    } else {
        i
    }
}

/// Index just past the last character before `j` that is not white space
/// (0 when there is none).
pub open spec fn end_non_ws(s: Seq<char>, j: int) -> int
    decreases j,
{
    if j <= 0 || j > s.len() {
        if j > s.len() { s.len() as int } else { 0 }
    } else if is_ws(s[j - 1]) {
        end_non_ws(s, j - 1)
    } else {
        j
    }
}

/// `s` without leading white space.
pub open spec fn trim_start(s: Seq<char>) -> Seq<char> {
    s.subrange(first_non_ws(s, 0), s.len() as int)
}

/// `s` without trailing white space.
pub open spec fn trim_end(s: Seq<char>) -> Seq<char> {
    s.subrange(0, end_non_ws(s, s.len() as int))
}

/// `s` without leading or trailing white space.
pub open spec fn trim(s: Seq<char>) -> Seq<char> {
    trim_end(trim_start(s))
}

/// Lemma: the first non-space index lies between `i` and the length.
pub proof fn lemma_first_non_ws(s: Seq<char>, i: int)
    requires
        0 <= i <= s.len(),
    ensures
        i <= first_non_ws(s, i) <= s.len(),
        forall|k: int| i <= k < first_non_ws(s, i) ==> is_ws(#[trigger] s[k]),
        first_non_ws(s, i) < s.len() ==> !is_ws(s[first_non_ws(s, i)]),
    decreases s.len() - i,
{
    if i < s.len() && is_ws(s[i]) {
        lemma_first_non_ws(s, i + 1);
    }
}

/// Lemma: the end of the non-space part lies between 0 and `j`.
pub proof fn lemma_end_non_ws(s: Seq<char>, j: int)
    requires
        0 <= j <= s.len(),
    ensures
        0 <= end_non_ws(s, j) <= j,
        forall|k: int| end_non_ws(s, j) <= k < j ==> is_ws(#[trigger] s[k]),
        end_non_ws(s, j) > 0 ==> !is_ws(s[end_non_ws(s, j) - 1]),
    decreases j,
{
    if j > 0 && is_ws(s[j - 1]) {
        lemma_end_non_ws(s, j - 1);
    }
}

/// Copies `v[from..to]`.
pub fn sub_chars(v: &[char], from: usize, to: usize) -> (r: Vec<char>)
    requires
        from <= to <= v.len(),
    ensures
        r@ == v@.subrange(from as int, to as int),
{
    let mut r: Vec<char> = Vec::new();
    let mut i = from;
    while i < to
        invariant
            from <= i <= to,
            to <= v.len(),
            r@ == v@.subrange(from as int, i as int),
        decreases to - i,
    {
        r.push(v[i]);
        proof {
            assert(v@.subrange(from as int, i + 1) =~= v@.subrange(from as int, i as int).push(v@[i as int]));
        }
        i += 1;
    }
    r
}

/// The characters of `v` without leading white space.
pub fn trim_start_chars(v: &[char]) -> (r: Vec<char>)
    ensures
        r@ == trim_start(v@),
{
    proof {
        lemma_first_non_ws(v@, 0);
    }
    let mut i: usize = 0;
    while i < v.len() && is_whitespace(v[i])
        invariant
            i <= v.len(),
            first_non_ws(v@, 0) == first_non_ws(v@, i as int),
        decreases v.len() - i,
    {
        i += 1;
    }
    sub_chars(v, i, v.len())
}

/// The characters of `v` without trailing white space.
pub fn trim_end_chars(v: &[char]) -> (r: Vec<char>)
    ensures
        r@ == trim_end(v@),
{
    let mut j: usize = v.len();
    while j > 0 && is_whitespace(v[j - 1])
        invariant
            j <= v.len(),
            end_non_ws(v@, v@.len() as int) == end_non_ws(v@, j as int),
        decreases j,
    {
        j -= 1;
    }
    sub_chars(v, 0, j)
}

/// The characters of `v` without leading or trailing white space.
pub fn trim_chars(v: &[char]) -> (r: Vec<char>)
    ensures
        r@ == trim(v@),
{
    let a = trim_start_chars(v);
    trim_end_chars(a.as_slice())
}

/// Whether `s` ends with `suffix`.
pub open spec fn ends_with(s: Seq<char>, suffix: Seq<char>) -> bool {
    suffix.len() <= s.len() && s.subrange(s.len() - suffix.len(), s.len() as int) == suffix
}

/// Whether `s` starts with `prefix`.
pub open spec fn starts_with(s: Seq<char>, prefix: Seq<char>) -> bool {
    prefix.len() <= s.len() && s.subrange(0, prefix.len() as int) == prefix
}

/// Whether `v` starts with `prefix` (exec form of [`starts_with`]).
pub fn chars_start_with(v: &[char], prefix: &[char]) -> (r: bool)
    ensures
        r == starts_with(v@, prefix@),
{
    if prefix.len() > v.len() {
        return false;
    }
    let head = sub_chars(v, 0, prefix.len());
    chars_eq(head.as_slice(), prefix)
}

/// Whether `v` ends with `suffix` (exec form of [`ends_with`]).
pub fn chars_end_with(v: &[char], suffix: &[char]) -> (r: bool)
    ensures
        r == ends_with(v@, suffix@),
{
    if suffix.len() > v.len() {
        return false;
    }
    let tail = sub_chars(v, v.len() - suffix.len(), v.len());
    chars_eq(tail.as_slice(), suffix)
}

/// Whether `c` occurs in `v`.
pub fn chars_contain(v: &[char], c: char) -> (r: bool)
    ensures
        r == v@.contains(c),
{
    let mut i: usize = 0;
    while i < v.len()
        invariant
            i <= v.len(),
            forall|j: int| 0 <= j < i ==> v@[j] != c,
        decreases v.len() - i,
    {
        if v[i] == c {
            proof {
                assert(v@[i as int] == c);
            }
            return true;
        }
        i += 1;
    }
    false
}

/// Appends all of `src` to `dst`.
pub fn extend_chars(dst: &mut Vec<char>, src: &[char])
    ensures
        final(dst)@ == old(dst)@ + src@,
{
    let ghost start = dst@;
    let mut i: usize = 0;
    while i < src.len()
        invariant
            i <= src.len(),
            dst@ == start + src@.subrange(0, i as int),
        decreases src.len() - i,
    {
        dst.push(src[i]);
        proof {
            assert(src@.subrange(0, i + 1) =~= src@.subrange(0, i as int).push(src@[i as int]));
        }
        i += 1;
    }
    proof {
        assert(src@.subrange(0, i as int) =~= src@);
    }
}

/// A string holding `a` followed by `b`.
pub fn concat_str(a: &str, b: &str) -> (r: String)
    ensures
        r@ == a@ + b@,
{
    let mut v = chars_of(a);
    let w = chars_of(b);
    extend_chars(&mut v, w.as_slice());
    string_of(v.as_slice())
}

/// The views of a list of strings.
pub open spec fn strings_view(v: Seq<String>) -> Seq<Seq<char>> {
    v.map_values(|s: String| s@)
}

/// The view of an optional string.
pub open spec fn opt_string_view(o: Option<String>) -> Option<Seq<char>> {
    match o {
        Some(s) => Some(s@),
        None => None,
    }
}

/// Copies of the strings of a slice.
pub fn copy_strings(v: &[String]) -> (r: Vec<String>)
    ensures
        r@ == v@,
{
    let mut r: Vec<String> = Vec::new();
    let mut i: usize = 0;
    while i < v.len()
        invariant
            i <= v.len(),
            r@ == v@.subrange(0, i as int),
        decreases v.len() - i,
    {
        r.push(v[i].clone());
        proof {
            assert(v@.subrange(0, i + 1) =~= v@.subrange(0, i as int).push(v@[i as int]));
        }
        i += 1;
    }
    proof {
        assert(v@.subrange(0, i as int) =~= v@);
    }
    r
}

/// Whether one of the strings of `v` holds exactly the characters of `x`.
pub fn strings_contain(v: &[String], x: &str) -> (r: bool)
    ensures
        r == strings_view(v@).contains(x@),
{
    let mut i: usize = 0;
    while i < v.len()
        invariant
            i <= v.len(),
            forall|k: int| 0 <= k < i ==> (#[trigger] v@[k])@ != x@,
        decreases v.len() - i,
    {
        if str_eq(v[i].as_str(), x) {
            proof {
                assert(strings_view(v@)[i as int] == x@);
            }
            return true;
        }
        i += 1;
    }
    proof {
        if strings_view(v@).contains(x@) {
            let k = choose|k: int| 0 <= k < strings_view(v@).len() && strings_view(v@)[k] == x@;
            assert(v@[k]@ == x@);
        }
    }
    false
}

/// A copy of an optional string.
pub fn copy_opt_string(o: &Option<String>) -> (r: Option<String>)
    ensures
        r == *o,
{
    match o {
        Some(s) => Some(s.clone()),
        None => None,
    }
}

/// The decimal digit character for `d < 10`.
pub open spec fn digit_char(d: int) -> char {
    if d == 0 { '0' }
    else if d == 1 { '1' }
    else if d == 2 { '2' }
    else if d == 3 { '3' }
    else if d == 4 { '4' }
    else if d == 5 { '5' }
    else if d == 6 { '6' }
    else if d == 7 { '7' }
    else if d == 8 { '8' }
    else { '9' }
}

/// The decimal notation of a natural number, without leading zeros.
pub open spec fn decimal(n: nat) -> Seq<char>
    decreases n,
{
    if n < 10 {
        seq![digit_char(n as int)]
    } else {
        decimal(n / 10).push(digit_char((n % 10) as int))
    }
}

/// The digit character for `d < 10` (exec form of [`digit_char`]).
fn digit_of(d: u64) -> (c: char)
    requires
        d < 10,
    ensures
        c == digit_char(d as int),
{
    if d == 0 { '0' }
    else if d == 1 { '1' }
    else if d == 2 { '2' }
    else if d == 3 { '3' }
    else if d == 4 { '4' }
    else if d == 5 { '5' }
    else if d == 6 { '6' }
    else if d == 7 { '7' }
    else if d == 8 { '8' }
    else { '9' }
}

/// The decimal digits of `n`.
pub fn decimal_chars(n: u64) -> (r: Vec<char>)
    ensures
        r@ == decimal(n as nat),
    decreases n,
{
    if n < 10 {
        let mut v: Vec<char> = Vec::new();
        v.push(digit_of(n));
        proof {
            assert(v@ =~= seq![digit_char(n as int)]);
        }
        v
    } else {
        let mut v = decimal_chars(n / 10);
        v.push(digit_of(n % 10));
        v
    }
}

/// The decimal notation of `n`.
pub fn u64_to_string(n: u64) -> (r: String)
    ensures
        r@ == decimal(n as nat),
{
    let v = decimal_chars(n);
    string_of(v.as_slice())
}


/// Index of the first `'\n'` at or after `i` (the length when there is none).
pub open spec fn line_end(s: Seq<char>, i: int) -> int
    decreases s.len() - i,
{
    if i < 0 || i >= s.len() {
        s.len() as int
    } else if s[i] == '\n' {
        i
    } else {
        line_end(s, i + 1)
    }
}

/// The pieces of `s` from `i` on between newlines; a newline at the very
/// end does not start another piece.
pub open spec fn lines_from(s: Seq<char>, i: int) -> Seq<Seq<char>>
    decreases s.len() - i,
{
    if i < 0 || i >= s.len() {
        Seq::empty()
    } else {
        let j = line_end(s, i);
        if j < i {
            Seq::empty()
        } else if j >= s.len() {
            seq![s.subrange(i, s.len() as int)]
        } else {
            seq![s.subrange(i, j)] + lines_from(s, j + 1)
        }
    }
}

/// The lines of `s`, split at each `'\n'` (a final newline ends the last
/// line).
pub open spec fn split_lines(s: Seq<char>) -> Seq<Seq<char>> {
    lines_from(s, 0)
}

pub proof fn lemma_line_end(s: Seq<char>, i: int)
    requires
        0 <= i <= s.len(),
    ensures
        i <= line_end(s, i) <= s.len(),
        line_end(s, i) < s.len() ==> s[line_end(s, i)] == '\n',
        forall|k: int| i <= k < line_end(s, i) ==> s[k] != '\n',
    decreases s.len() - i,
{
    if i < s.len() && s[i] != '\n' {
        lemma_line_end(s, i + 1);
    }
}

/// The lines of a text, as strings.
pub fn text_lines(text: &str) -> (r: Vec<Vec<char>>)
    ensures
        r@.map_values(|l: Vec<char>| l@) == split_lines(text@),
{
    let s = chars_of(text);
    let mut out: Vec<Vec<char>> = Vec::new();
    let mut i: usize = 0;
    while i < s.len()
        invariant
            i <= s.len(),
            s@ == text@,
            out@.map_values(|l: Vec<char>| l@) + lines_from(s@, i as int) == split_lines(s@),
        decreases s.len() - i,
    {
        let mut j: usize = i;
        while j < s.len() && s[j] != '\n'
            invariant
                i <= j <= s.len(),
                line_end(s@, i as int) == line_end(s@, j as int),
            decreases s.len() - j,
        {
            j += 1;
        }
        proof {
            lemma_line_end(s@, i as int);
            assert(line_end(s@, i as int) == j);
        }
        let piece = sub_chars(s.as_slice(), i, j);
        let ghost before = out@;
        out.push(piece);
        if j == s.len() {
            proof {
                assert(lines_from(s@, i as int) == seq![s@.subrange(i as int, j as int)]);
                assert(out@.map_values(|l: Vec<char>| l@) =~= before.map_values(|l: Vec<char>| l@).push(s@.subrange(i as int, j as int)));
                assert(before.map_values(|l: Vec<char>| l@) + seq![s@.subrange(i as int, j as int)] =~= before.map_values(|l: Vec<char>| l@).push(s@.subrange(i as int, j as int)));
            }
            return out;
        }
        proof {
            assert(out@.map_values(|l: Vec<char>| l@) =~= before.map_values(|l: Vec<char>| l@).push(s@.subrange(i as int, j as int)));
            assert(lines_from(s@, i as int) == seq![s@.subrange(i as int, j as int)] + lines_from(s@, j + 1));
            assert(before.map_values(|l: Vec<char>| l@).push(s@.subrange(i as int, j as int)) + lines_from(s@, j + 1) =~= before.map_values(|l: Vec<char>| l@) + (seq![s@.subrange(i as int, j as int)] + lines_from(s@, j + 1)));
        }
        i = j + 1;
    }
    proof {
        assert(lines_from(s@, i as int) =~= Seq::<Seq<char>>::empty());
        assert(out@.map_values(|l: Vec<char>| l@) + Seq::<Seq<char>>::empty() =~= out@.map_values(|l: Vec<char>| l@));
    }
    out
}

/// Index of the first white-space character at or after `i` (the length
/// when there is none).
pub open spec fn first_ws(s: Seq<char>, i: int) -> int
    decreases s.len() - i,
{
    if i < 0 || i >= s.len() {
        s.len() as int
    } else if is_ws(s[i]) {
        i
    } else {
        first_ws(s, i + 1)
    }
}

/// The words of `s` from `i` on: the maximal runs of characters that are
/// not white space.
pub open spec fn words_from(s: Seq<char>, i: int) -> Seq<Seq<char>>
    decreases s.len() - i,
{
    let k = first_non_ws(s, i);
    if i < 0 || k >= s.len() || k < i {
        Seq::empty()
    } else {
        let e = first_ws(s, k);
        if e <= k || e > s.len() {
            Seq::empty()
        } else {
            seq![s.subrange(k, e)] + words_from(s, e)
        }
    }
}

/// The words of `s`, separated by white space.
pub open spec fn words(s: Seq<char>) -> Seq<Seq<char>> {
    words_from(s, 0)
}

pub proof fn lemma_first_ws(s: Seq<char>, i: int)
    requires
        0 <= i <= s.len(),
    ensures
        i <= first_ws(s, i) <= s.len(),
        first_ws(s, i) < s.len() ==> is_ws(s[first_ws(s, i)]),
    decreases s.len() - i,
{
    if i < s.len() && !is_ws(s[i]) {
        lemma_first_ws(s, i + 1);
    }
}

/// The words of a text, separated by white space.
pub fn split_words(v: &[char]) -> (r: Vec<Vec<char>>)
    ensures
        r@.map_values(|w: Vec<char>| w@) == words(v@),
{
    let mut out: Vec<Vec<char>> = Vec::new();
    let mut i: usize = 0;
    while i < v.len()
        invariant
            i <= v.len(),
            out@.map_values(|w: Vec<char>| w@) + words_from(v@, i as int) == words(v@),
        decreases v.len() - i,
    {
        let mut k: usize = i;
        while k < v.len() && is_whitespace(v[k])
            invariant
                i <= k <= v.len(),
                first_non_ws(v@, i as int) == first_non_ws(v@, k as int),
            decreases v.len() - k,
        {
            k += 1;
        }
        proof {
            lemma_first_non_ws(v@, i as int);
        }
        if k == v.len() {
            proof {
                assert(words_from(v@, i as int) =~= Seq::<Seq<char>>::empty());
                assert(out@.map_values(|w: Vec<char>| w@) + Seq::<Seq<char>>::empty() =~= out@.map_values(|w: Vec<char>| w@));
            }
            return out;
        }
        let mut e: usize = k;
        while e < v.len() && !is_whitespace(v[e])
            invariant
                k <= e <= v.len(),
                first_ws(v@, k as int) == first_ws(v@, e as int),
            decreases v.len() - e,
        {
            e += 1;
        }
        proof {
            lemma_first_ws(v@, k as int);
            assert(first_non_ws(v@, i as int) == k);
            assert(first_ws(v@, k as int) == e);
        }
        let w = sub_chars(v, k, e);
        let ghost before = out@;
        out.push(w);
        proof {
            assert(out@.map_values(|w: Vec<char>| w@) =~= before.map_values(|w: Vec<char>| w@).push(v@.subrange(k as int, e as int)));
            assert(words_from(v@, i as int) == seq![v@.subrange(k as int, e as int)] + words_from(v@, e as int));
            assert(before.map_values(|w: Vec<char>| w@).push(v@.subrange(k as int, e as int)) + words_from(v@, e as int) =~= before.map_values(|w: Vec<char>| w@) + (seq![v@.subrange(k as int, e as int)] + words_from(v@, e as int)));
        }
        i = e;
    }
    proof {
        assert(words_from(v@, i as int) =~= Seq::<Seq<char>>::empty());
        assert(out@.map_values(|w: Vec<char>| w@) + Seq::<Seq<char>>::empty() =~= out@.map_values(|w: Vec<char>| w@));
    }
    out
}



/// Strict lexicographic order of character sequences, by code point (the
/// order of `String`).
pub open spec fn name_lt(a: Seq<char>, b: Seq<char>) -> bool
    decreases a.len(),
{
    if a.len() == 0 {
        b.len() > 0
    } else if b.len() == 0 {
        false
    } else if a[0] != b[0] {
        (a[0] as int) < (b[0] as int)
    } else {
        name_lt(a.drop_first(), b.drop_first())
    }
}

/// Names strictly increasing, hence without repetition.
pub open spec fn sorted_names(s: Seq<Seq<char>>) -> bool {
    forall|i: int, j: int| 0 <= i < j < s.len() ==> name_lt(#[trigger] s[i], #[trigger] s[j])
}

/// No name comes before itself.
pub proof fn lemma_name_lt_irreflexive(a: Seq<char>)
    ensures
        !name_lt(a, a),
    decreases a.len(),
{
    if a.len() > 0 {
        lemma_name_lt_irreflexive(a.drop_first());
    }
}

/// Of two different names, one comes first.
pub proof fn lemma_name_lt_total(a: Seq<char>, b: Seq<char>)
    ensures
        a == b || name_lt(a, b) || name_lt(b, a),
    decreases a.len(),
{
    if a.len() > 0 && b.len() > 0 && a[0] == b[0] {
        lemma_name_lt_total(a.drop_first(), b.drop_first());
        if a.drop_first() == b.drop_first() {
            assert(a =~= seq![a[0]] + a.drop_first());
            assert(b =~= seq![b[0]] + b.drop_first());
        }
    } else if a.len() == 0 && b.len() == 0 {
        assert(a =~= b);
    }
}

/// The order is transitive.
pub proof fn lemma_name_lt_transitive(a: Seq<char>, b: Seq<char>, c: Seq<char>)
    requires
        name_lt(a, b),
        name_lt(b, c),
    ensures
        name_lt(a, c),
    decreases a.len(),
{
    if a.len() > 0 && b.len() > 0 && c.len() > 0 && a[0] == b[0] && b[0] == c[0] {
        lemma_name_lt_transitive(a.drop_first(), b.drop_first(), c.drop_first());
    }
}

/// The order is asymmetric.
pub proof fn lemma_name_lt_asymmetric(a: Seq<char>, b: Seq<char>)
    requires
        name_lt(a, b),
    ensures
        !name_lt(b, a),
    decreases a.len(),
{
    if a.len() > 0 && b.len() > 0 && a[0] == b[0] {
        lemma_name_lt_asymmetric(a.drop_first(), b.drop_first());
    }
}

/// Whether `a` comes strictly before `b`.
pub fn chars_lt(a: &[char], b: &[char]) -> (r: bool)
    ensures
        r == name_lt(a@, b@),
{
    let mut i: usize = 0;
    proof {
        assert(a@.subrange(0, a.len() as int) =~= a@);
        assert(b@.subrange(0, b.len() as int) =~= b@);
    }
    while i < a.len() && i < b.len()
        invariant
            i <= a.len(),
            i <= b.len(),
            a@.subrange(0, i as int) == b@.subrange(0, i as int),
            name_lt(a@, b@) == name_lt(a@.subrange(i as int, a.len() as int), b@.subrange(
                i as int,
                b.len() as int,
            )),
        decreases a.len() - i,
    {
        if a[i] != b[i] {
            proof {
                let x = a@.subrange(i as int, a.len() as int);
                let y = b@.subrange(i as int, b.len() as int);
                assert(x.len() > 0 && y.len() > 0);
                assert(x[0] == a@[i as int] && y[0] == b@[i as int]);
                assert(name_lt(x, y) == ((x[0] as int) < (y[0] as int)));
            }
            let r = a[i] < b[i];
            assert(r == ((a@[i as int] as int) < (b@[i as int] as int)));
            return r;
        }
        proof {
            let x = a@.subrange(i as int, a.len() as int);
            let y = b@.subrange(i as int, b.len() as int);
            assert(x.drop_first() =~= a@.subrange(i + 1, a.len() as int));
            assert(y.drop_first() =~= b@.subrange(i + 1, b.len() as int));
            assert(a@.subrange(0, i + 1) =~= a@.subrange(0, i as int).push(a@[i as int]));
            assert(b@.subrange(0, i + 1) =~= b@.subrange(0, i as int).push(b@[i as int]));
        }
        i += 1;
    }
    proof {
        let x = a@.subrange(i as int, a.len() as int);
        let y = b@.subrange(i as int, b.len() as int);
        assert(x.len() == 0 || y.len() == 0);
    }
    i == a.len() && i < b.len()
}


/// Names in non-decreasing order.
pub open spec fn ordered_names(s: Seq<Seq<char>>) -> bool {
    forall|i: int, j: int| 0 <= i < j < s.len() ==> !name_lt(#[trigger] s[j], #[trigger] s[i])
}

/// The strings of `v` in non-decreasing order (the order of `String`).
pub fn sort_strings(v: Vec<String>) -> (r: Vec<String>)
    ensures
        ordered_names(strings_view(r@)),
        r@.to_multiset() == v@.to_multiset(),
{
    broadcast use vstd::seq_lib::group_to_multiset_ensures;
    let mut r: Vec<String> = Vec::new();
    let mut i: usize = 0;
    while i < v.len()
        invariant
            i <= v.len(),
            ordered_names(strings_view(r@)),
            r@.to_multiset() == v@.take(i as int).to_multiset(),
        decreases v.len() - i,
    {
        let x = v[i].clone();
        let xc = chars_of(x.as_str());
        let ghost rs = strings_view(r@);
        let mut p: usize = 0;
        while p < r.len()
            invariant
                p <= r.len(),
                rs == strings_view(r@),
                xc@ == x@,
                forall|k: int| 0 <= k < p ==> !name_lt(x@, #[trigger] rs[k]),
            ensures
                p <= r.len(),
                forall|k: int| 0 <= k < p ==> !name_lt(x@, #[trigger] rs[k]),
                p == r.len() || name_lt(x@, rs[p as int]),
            decreases r.len() - p,
        {
            let cur = chars_of(r[p].as_str());
            assert(cur@ == rs[p as int]);
            if chars_lt(xc.as_slice(), cur.as_slice()) {
                break;
            }
            p += 1;
        }
        proof {
            // everything from p on comes after x: r[p] does, and the rest
            // follow r[p]
            assert forall|k: int| p <= k < rs.len() implies !name_lt(#[trigger] rs[k], x@) by {
                let q = p as int;
                lemma_name_lt_asymmetric(x@, rs[q]);
                if k > q && name_lt(rs[k], x@) {
                    assert(!name_lt(rs[k], rs[q]));
                    lemma_name_lt_total(rs[k], rs[q]);
                    if name_lt(rs[q], rs[k]) {
                        lemma_name_lt_transitive(rs[q], rs[k], x@);
                    }
                }
            }
        }
        let ghost before = r@;
        r.insert(p, x);
        proof {
            assert(strings_view(r@) =~= rs.insert(p as int, x@));
            let t = rs.insert(p as int, x@);
            assert forall|a: int, b: int| 0 <= a < b < t.len() implies !name_lt(#[trigger] t[b], #[trigger] t[a]) by {
                if b < p {
                    assert(t[a] == rs[a] && t[b] == rs[b]);
                } else if b == p {
                    assert(t[a] == rs[a]);
                } else if a == p {
                    assert(t[b] == rs[b - 1]);
                } else if a < p {
                    assert(t[a] == rs[a] && t[b] == rs[b - 1]);
                    if name_lt(rs[b - 1], rs[a]) {
                        lemma_name_lt_total(x@, rs[a]);
                        if name_lt(x@, rs[a]) {
                        } else if x@ == rs[a] {
                        } else {
                            lemma_name_lt_transitive(rs[b - 1], rs[a], x@);
                        }
                    }
                } else {
                    assert(t[a] == rs[a - 1] && t[b] == rs[b - 1]);
                }
            }
            assert(r@ == before.insert(p as int, x));
            vstd::seq_lib::to_multiset_insert(before, p as int, x);
            assert(v@.take(i + 1) =~= v@.take(i as int).push(v@[i as int]));
            assert(x == v@[i as int]);
            vstd::seq_lib::to_multiset_build(v@.take(i as int), x);
            assert(v@.take(i + 1).to_multiset() == v@.take(i as int).to_multiset().insert(x));
        }
        i += 1;
    }
    proof {
        assert(v@.take(i as int) =~= v@);
    }
    r
}


/// The lowercase form of a string, by the Unicode rules of
/// `str::to_lowercase`.
pub uninterp spec fn lowercase(s: Seq<char>) -> Seq<char>;

/// Whether every character is ASCII.
pub open spec fn is_ascii_text(s: Seq<char>) -> bool {
    forall|i: int| 0 <= i < s.len() ==> (#[trigger] s[i] as u32) < 128
}

/// The ASCII lowercase of a character: `A`–`Z` become `a`–`z`, every other
/// character stays.
pub open spec fn ascii_lower_char(c: char) -> char {
    if 'A' <= c && c <= 'Z' {
        ((c as u32) + 32) as char
    } else {
        c
    }
}

/// The ASCII lowercase of a text, character by character.
pub open spec fn ascii_lowered(s: Seq<char>) -> Seq<char> {
    s.map_values(|c: char| ascii_lower_char(c))
}

/// The lowercase form of `s`.
///
/// Calls `str::to_lowercase`, whose result depends on `s` alone. Its
/// Unicode case mapping is not written out here but named `lowercase`; for
/// ASCII text, where Unicode lowercasing maps `A`–`Z` to `a`–`z` and leaves
/// every other character as it is, the result is stated.
#[verifier::external_body]
pub(crate) fn to_lowercase(s: &str) -> (r: String)
    ensures
        r@ == lowercase(s@),
        is_ascii_text(s@) ==> r@ == ascii_lowered(s@),
{
    s.to_lowercase()
}


/// Index of the first `c` at or after `i` (the length when there is none).
pub open spec fn next_index(s: Seq<char>, c: char, i: int) -> int
    decreases s.len() - i,
{
    if i < 0 || i >= s.len() {
        s.len() as int
    } else if s[i] == c {
        i
    } else {
        next_index(s, c, i + 1)
    }
}

/// The pieces of `s` from `i` on between occurrences of `c`, empty pieces
/// included (`"a//b"` gives `a`, ``, `b`).
pub open spec fn pieces_from(s: Seq<char>, c: char, i: int) -> Seq<Seq<char>>
    decreases s.len() + 1 - i,
{
    if i < 0 || i > s.len() {
        Seq::empty()
    } else {
        let j = next_index(s, c, i);
        if j < i || j > s.len() {
            Seq::empty()
        } else if j == s.len() {
            seq![s.subrange(i, j)]
        } else {
            seq![s.subrange(i, j)] + pieces_from(s, c, j + 1)
        }
    }
}

pub proof fn lemma_next_index(s: Seq<char>, c: char, i: int)
    requires
        0 <= i <= s.len(),
    ensures
        i <= next_index(s, c, i) <= s.len(),
        next_index(s, c, i) < s.len() ==> s[next_index(s, c, i)] == c,
    decreases s.len() - i,
{
    if i < s.len() && s[i] != c {
        lemma_next_index(s, c, i + 1);
    }
}

/// The pieces of `s` between occurrences of `c`.
pub fn split_char(s: &[char], c: char) -> (r: Vec<Vec<char>>)
    ensures
        r@.map_values(|p: Vec<char>| p@) == pieces_from(s@, c, 0),
{
    let mut out: Vec<Vec<char>> = Vec::new();
    let mut i: usize = 0;
    loop
        invariant
            i <= s.len(),
            out@.map_values(|p: Vec<char>| p@) + pieces_from(s@, c, i as int) == pieces_from(s@, c, 0),
        decreases s.len() + 1 - i,
    {
        let mut j: usize = i;
        while j < s.len() && s[j] != c
            invariant
                i <= j <= s.len(),
                next_index(s@, c, i as int) == next_index(s@, c, j as int),
            decreases s.len() - j,
        {
            j += 1;
        }
        proof {
            lemma_next_index(s@, c, i as int);
        }
        let piece = sub_chars(s, i, j);
        let ghost before = out@;
        out.push(piece);
        proof {
            assert(out@.map_values(|p: Vec<char>| p@) =~= before.map_values(|p: Vec<char>| p@).push(s@.subrange(i as int, j as int)));
        }
        if j == s.len() {
            proof {
                assert(pieces_from(s@, c, i as int) == seq![s@.subrange(i as int, j as int)]);
                assert(before.map_values(|p: Vec<char>| p@) + seq![s@.subrange(i as int, j as int)] =~= out@.map_values(|p: Vec<char>| p@));
            }
            return out;
        }
        proof {
            assert(pieces_from(s@, c, i as int) == seq![s@.subrange(i as int, j as int)] + pieces_from(s@, c, j + 1));
            assert(before.map_values(|p: Vec<char>| p@).push(s@.subrange(i as int, j as int)) + pieces_from(s@, c, j + 1) =~= before.map_values(|p: Vec<char>| p@) + (seq![s@.subrange(i as int, j as int)] + pieces_from(s@, c, j + 1)));
        }
        i = j + 1;
    }
}

/// `base.join(path)` on Unix paths: `path` itself when absolute, else
/// `path` under `base`, with a separator between them when `base` is not
/// empty and does not end with one.
pub open spec fn joined_path(base: Seq<char>, path: Seq<char>) -> Seq<char> {
    if path.len() > 0 && path[0] == '/' {
        path
    } else if base.len() > 0 && base.last() != '/' {
        base + "/"@ + path
    } else {
        base + path
    }
}

/// The characters of `base.join(path)`.
pub fn join_chars(base: &[char], path: &[char]) -> (r: Vec<char>)
    ensures
        r@ == joined_path(base@, path@),
{
    let mut joined: Vec<char> = Vec::new();
    if path.len() > 0 && path[0] == '/' {
        extend_chars(&mut joined, path);
        proof {
            assert(joined@ =~= path@);
        }
    } else {
        extend_chars(&mut joined, base);
        if base.len() > 0 && base[base.len() - 1] != '/' {
            joined.push('/');
        }
        extend_chars(&mut joined, path);
        proof {
            reveal_strlit("/");
            if base.len() > 0 && base@.last() != '/' {
                assert(joined@ =~= base@ + "/"@ + path@);
            } else {
                assert(joined@ =~= base@ + path@);
            }
        }
    }
    joined
}

/// `base.join(path)` as a string.
pub fn join_path(base: &str, path: &str) -> (r: String)
    ensures
        r@ == joined_path(base@, path@),
{
    let b = chars_of(base);
    let p = chars_of(path);
    let j = join_chars(b.as_slice(), p.as_slice());
    string_of(j.as_slice())
}

} // verus!
