//! Character-level text utilities: substring replacement, whitespace
//! splitting, case folding and path-name helpers.
//!
//! Every function here is specified over `Seq<char>`, the view of a string.

use vstd::prelude::*;

verus! {

/// The characters of a string slice, in order.
pub fn chars_of(s: &str) -> (r: Vec<char>)
    ensures
        r@ == s@,
{
    let mut out: Vec<char> = Vec::new();
    for c in it: s.chars()
        invariant
            out@ == it.seq().take(it.index() as int),
            it.seq() == s@,
    {
        out.push(c);
    }
    out
}

/// Builds a `String` from characters with `Iterator::collect`, that is
/// `String::from_iter`. The contract states what collecting characters
/// into a `String` does: the string holds exactly the given characters, in
/// order.
#[verifier::external_body]
pub(crate) fn string_of(chars: &Vec<char>) -> (r: String)
    ensures
        r@ == chars@,
{
    chars.iter().collect()
}

/// The lowercase form of a text as `str::to_lowercase` computes it (full
/// Unicode case mapping, a function of the text alone).
pub uninterp spec fn lowercased(text: Seq<char>) -> Seq<char>;

/// Lowercases a string with `str::to_lowercase`. Only the fact that the
/// result is the Unicode lowercase form of the input is claimed.
#[verifier::external_body]
pub(crate) fn lowercase(s: &str) -> (r: String)
    ensures
        r@ == lowercased(s@),
{
    s.to_lowercase()
}

/// Appends a copy of `src` to `out`.
pub fn append_chars(out: &mut Vec<char>, src: &Vec<char>)
    ensures
        final(out)@ == old(out)@ + src@,
{
    let mut i: usize = 0;
    while i < src.len()
        invariant
            i <= src.len(),
            out@ == old(out)@ + src@.take(i as int),
        decreases src.len() - i,
    {
        out.push(src[i]);
        i += 1;
    }
    assert(src@.take(src.len() as int) == src@);
}

/// The concatenation of two strings.
pub fn join2(a: &str, b: &str) -> (r: String)
    ensures
        r@ == a@ + b@,
{
    String::from_str(a).concat(b)
}

/// The concatenation of three strings.
pub fn join3(a: &str, b: &str, c: &str) -> (r: String)
    ensures
        r@ == a@ + b@ + c@,
{
    String::from_str(a).concat(b).concat(c)
}

/// Whether two strings hold the same characters.
pub fn same_text(a: &str, b: &str) -> (r: bool)
    ensures
        r == (a@ == b@),
{
    let x = chars_of(a);
    let y = chars_of(b);
    same_chars(&x, &y)
}

/// Whether two character vectors are equal.
pub fn same_chars(a: &Vec<char>, b: &Vec<char>) -> (r: bool)
    ensures
        r == (a@ == b@),
{
    if a.len() != b.len() {
        return false;
    }
    let mut i: usize = 0;
    while i < a.len()
        invariant
            i <= a.len(),
            a.len() == b.len(),
            a@.take(i as int) == b@.take(i as int),
        decreases a.len() - i,
    {
        if a[i] != b[i] {
            return false;
        }
        assert(a@.take(i + 1) == a@.take(i as int).push(a@[i as int]));
        assert(b@.take(i + 1) == b@.take(i as int).push(b@[i as int]));
        i += 1;
    }
    assert(a@.take(a.len() as int) == a@);
    assert(b@.take(b.len() as int) == b@);
    true
}

/// `pat` occurs in `text` starting at index `i`.
pub open spec fn matches_at(text: Seq<char>, pat: Seq<char>, i: int) -> bool {
    0 <= i && i + pat.len() <= text.len() && text.subrange(i, i + pat.len()) == pat
}

/// `pat` occurs somewhere in `text`.
pub open spec fn occurs_in(pat: Seq<char>, text: Seq<char>) -> bool {
    exists|i: int| matches_at(text, pat, i)
}

/// Whether `pat` occurs in `text` at index `i`.
pub fn starts_with_at(text: &Vec<char>, i: usize, pat: &Vec<char>) -> (r: bool)
    ensures
        r == matches_at(text@, pat@, i as int),
{
    if i > text.len() || pat.len() > text.len() - i {
        return false;
    }
    let mut k: usize = 0;
    while k < pat.len()
        invariant
            k <= pat.len(),
            i + pat.len() <= text.len(),
            text@.subrange(i as int, i + k) == pat@.take(k as int),
        decreases pat.len() - k,
    {
        if text[i + k] != pat[k] {
            assert(text@.subrange(i as int, i + pat.len())[k as int] != pat@[k as int]);
            return false;
        }
        assert(text@.subrange(i as int, i + k + 1) == text@.subrange(i as int, i + k).push(
            text@[i + k],
        ));
        assert(pat@.take(k + 1) == pat@.take(k as int).push(pat@[k as int]));
        k += 1;
    }
    assert(pat@.take(pat.len() as int) == pat@);
    true
}

/// Finds the first occurrence of `pat` in `text`.
pub fn find_chars(text: &Vec<char>, pat: &Vec<char>) -> (r: Option<usize>)
    ensures
        match r {
            Some(i) => matches_at(text@, pat@, i as int) && forall|j: int|
                0 <= j < i ==> !matches_at(text@, pat@, j),
            None => !occurs_in(pat@, text@),
        },
{
    let mut i: usize = 0;
    while i < text.len()
        invariant
            i <= text.len(),
            forall|j: int| 0 <= j < i ==> !matches_at(text@, pat@, j),
        decreases text.len() - i,
    {
        if starts_with_at(text, i, pat) {
            return Some(i);
        }
        i += 1;
    }
    if starts_with_at(text, i, pat) {
        Some(i)
    } else {
        None
    }
}

/// The text with every non-overlapping occurrence of `pat`, found from left
/// to right, replaced by `to`. An empty pattern replaces nothing. This is
/// what expansion with a single binding comes to.
pub open spec fn replace_all(text: Seq<char>, pat: Seq<char>, to: Seq<char>) -> Seq<char>
    decreases text.len(),
{
    if pat.len() == 0 || text.len() < pat.len() {
        text
    } else if matches_at(text, pat, 0) {
        to + replace_all(text.skip(pat.len() as int), pat, to)
    } else {
        seq![text[0]] + replace_all(text.skip(1), pat, to)
    }
}

/// A text shorter than the pattern is left as it is.
pub proof fn lemma_replace_all_short(text: Seq<char>, pat: Seq<char>, to: Seq<char>)
    requires
        text.len() < pat.len(),
    ensures
        replace_all(text, pat, to) == text,
{
}

/// A text in which the pattern does not occur is left as it is.
pub proof fn lemma_replace_all_absent(text: Seq<char>, pat: Seq<char>, to: Seq<char>)
    requires
        !occurs_in(pat, text),
    ensures
        replace_all(text, pat, to) == text,
    decreases text.len(),
{
    if pat.len() == 0 || text.len() < pat.len() {
    } else {
        assert(!matches_at(text, pat, 0));
        let rest = text.skip(1);
        assert forall|i: int| !matches_at(rest, pat, i) by {
            if matches_at(rest, pat, i) {
                assert(rest.subrange(i, i + pat.len()) == text.subrange(i + 1, i + 1 + pat.len()));
                assert(matches_at(text, pat, i + 1));
            }
        }
        lemma_replace_all_absent(rest, pat, to);
        assert(seq![text[0]] + rest == text);
    }
}

/// Replacing a pattern that does occur changes the text, unless the
/// replacement is the pattern itself.
pub proof fn lemma_replace_all_changes(text: Seq<char>, pat: Seq<char>, to: Seq<char>)
    requires
        pat.len() > 0,
        occurs_in(pat, text),
        to != pat,
    ensures
        replace_all(text, pat, to) != text,
    decreases text.len(),
{
    let i = choose|i: int| matches_at(text, pat, i);
    assert(text.len() >= pat.len());
    if matches_at(text, pat, 0) {
        let rest = text.skip(pat.len() as int);
        let out = replace_all(text, pat, to);
        assert(out == to + replace_all(rest, pat, to));
        if out == text {
            if to.len() == pat.len() {
                assert(out.subrange(0, pat.len() as int) == to);
                assert(text.subrange(0, pat.len() as int) == pat);
            } else {
                lemma_replace_all_len(text, pat, to);
                let n = replaced_count(text, pat);
                assert(n > 0 && n * pat.len() == n * to.len() ==> pat.len() == to.len())
                    by (nonlinear_arith);
            }
            assert(false);
        }
    } else {
        let rest = text.skip(1);
        assert(i >= 1);
        assert(rest.subrange(i - 1, i - 1 + pat.len()) == text.subrange(i, i + pat.len()));
        assert(matches_at(rest, pat, i - 1));
        lemma_replace_all_changes(rest, pat, to);
        let out = replace_all(text, pat, to);
        if out == text {
            assert(out.skip(1) == replace_all(rest, pat, to));
            assert(false);
        }
    }
}

/// The number of non-overlapping occurrences that one pass replaces.
pub open spec fn replaced_count(text: Seq<char>, pat: Seq<char>) -> nat
    decreases text.len(),
{
    if pat.len() == 0 || text.len() < pat.len() {
        0
    } else if matches_at(text, pat, 0) {
        1 + replaced_count(text.skip(pat.len() as int), pat)
    } else {
        replaced_count(text.skip(1), pat)
    }
}

/// The length of the result of a pass: each replaced occurrence trades the
/// pattern's length for the replacement's.
pub proof fn lemma_replace_all_len(text: Seq<char>, pat: Seq<char>, to: Seq<char>)
    ensures
        replace_all(text, pat, to).len() + replaced_count(text, pat) * pat.len() == text.len()
            + replaced_count(text, pat) * to.len(),
        occurs_in(pat, text) && pat.len() > 0 ==> replaced_count(text, pat) > 0,
    decreases text.len(),
{
    if pat.len() == 0 || text.len() < pat.len() {
        if pat.len() > 0 && occurs_in(pat, text) {
            let i = choose|i: int| matches_at(text, pat, i);
            assert(false);
        }
        assert(replaced_count(text, pat) == 0);
        assert(0 * pat.len() == 0 && 0 * to.len() == 0);
    } else if matches_at(text, pat, 0) {
        let rest = text.skip(pat.len() as int);
        lemma_replace_all_len(rest, pat, to);
        let n = replaced_count(rest, pat);
        assert(replaced_count(text, pat) == 1 + n);
        assert(replace_all(text, pat, to).len() == to.len() + replace_all(rest, pat, to).len());
        assert((1 + n) * pat.len() == pat.len() + n * pat.len()) by (nonlinear_arith);
        assert((1 + n) * to.len() == to.len() + n * to.len()) by (nonlinear_arith);
    } else {
        let rest = text.skip(1);
        lemma_replace_all_len(rest, pat, to);
        assert(replaced_count(text, pat) == replaced_count(rest, pat));
        assert(replace_all(text, pat, to).len() == 1 + replace_all(rest, pat, to).len());
        if occurs_in(pat, text) {
            let i = choose|i: int| matches_at(text, pat, i);
            assert(i >= 1);
            assert(rest.subrange(i - 1, i - 1 + pat.len()) == text.subrange(i, i + pat.len()));
            assert(matches_at(rest, pat, i - 1));
        }
    }
}

/// The index just past the last occurrence of `a` or `b` in `s`, or 0 if
/// neither occurs.
pub open spec fn after_last_of(s: Seq<char>, a: char, b: char) -> nat
    decreases s.len(),
{
    if s.len() == 0 {
        0
    } else if s.last() == a || s.last() == b {
        s.len()
    } else {
        after_last_of(s.drop_last(), a, b)
    }
}

/// Finds the index just past the last occurrence of `a` or `b`.
pub fn find_after_last_of(s: &Vec<char>, a: char, b: char) -> (r: usize)
    ensures
        r == after_last_of(s@, a, b),
        r <= s.len(),
{
    let mut i: usize = s.len();
    assert(s@.take(i as int) == s@);
    while i > 0
        invariant
            i <= s.len(),
            after_last_of(s@, a, b) == after_last_of(s@.take(i as int), a, b),
        decreases i,
    {
        if s[i - 1] == a || s[i - 1] == b {
            return i;
        }
        assert(s@.take(i as int).drop_last() == s@.take(i - 1));
        i -= 1;
    }
    0
}

/// The characters of `s` from index `from` on.
pub fn tail_chars(s: &Vec<char>, from: usize) -> (r: Vec<char>)
    requires
        from <= s.len(),
    ensures
        r@ == s@.skip(from as int),
{
    let mut out: Vec<char> = Vec::new();
    let mut i: usize = from;
    while i < s.len()
        invariant
            from <= i <= s.len(),
            out@ == s@.subrange(from as int, i as int),
        decreases s.len() - i,
    {
        out.push(s[i]);
        i += 1;
        assert(out@ == s@.subrange(from as int, i as int));
    }
    assert(s@.subrange(from as int, s.len() as int) == s@.skip(from as int));
    out
}

/// The last component of a path: the text after the last `/` or `\`.
/// Nothing more is read into the path: one that ends in a separator has
/// the empty text as its last component, and `.` and `..` are components
/// like any other.
pub open spec fn base_name(path: Seq<char>) -> Seq<char> {
    path.skip(after_last_of(path, '/', '\\') as int)
}

/// The extension of a path: the text after the last `.` of its last
/// component, provided that component has a `.` that is not its first
/// character.
pub open spec fn extension(path: Seq<char>) -> Option<Seq<char>> {
    let name = base_name(path);
    let d = after_last_of(name, '.', '.');
    if d >= 2 {
        Some(name.skip(d as int))
    } else {
        None
    }
}

/// A character with an ASCII capital letter replaced by its small letter.
pub open spec fn ascii_lower_char(c: char) -> char {
    if 'A' <= c <= 'Z' {
        ((c as u8) + 32) as char
    } else {
        c
    }
}

/// A text with each ASCII capital letter replaced by its small letter.
pub open spec fn ascii_lower(s: Seq<char>) -> Seq<char> {
    Seq::new(s.len(), |i: int| ascii_lower_char(s[i]))
}

/// Whether the path's extension is `json`, in any mix of ASCII cases.
pub open spec fn is_json_path(path: Seq<char>) -> bool {
    match extension(path) {
        Some(e) => ascii_lower(e) == seq!['j', 's', 'o', 'n'],
        None => false,
    }
}

/// Folds an ASCII capital letter to its small letter.
pub fn to_ascii_lower_char(c: char) -> (r: char)
    ensures
        r == ascii_lower_char(c),
{
    if 'A' <= c && c <= 'Z' {
        ((c as u8) + 32) as char
    } else {
        c
    }
}

/// The last component of a path, as characters.
pub fn base_name_chars(path: &str) -> (r: Vec<char>)
    ensures
        r@ == base_name(path@),
{
    let chars = chars_of(path);
    let start = find_after_last_of(&chars, '/', '\\');
    tail_chars(&chars, start)
}

/// Whether a path names a JSON file: its extension is `json`, in any mix of
/// ASCII cases.
pub fn has_json_extension(path: &str) -> (r: bool)
    ensures
        r == is_json_path(path@),
{
    let name = base_name_chars(path);
    let d = find_after_last_of(&name, '.', '.');
    if d < 2 {
        return false;
    }
    let ext = tail_chars(&name, d);
    if ext.len() != 4 {
        assert(ascii_lower(ext@).len() != 4);
        return false;
    }
    let r = to_ascii_lower_char(ext[0]) == 'j' && to_ascii_lower_char(ext[1]) == 's'
        && to_ascii_lower_char(ext[2]) == 'o' && to_ascii_lower_char(ext[3]) == 'n';
    proof {
        let low = ascii_lower(ext@);
        let json = seq!['j', 's', 'o', 'n'];
        if r {
            assert(low =~= json);
        } else {
            assert(low[0] != json[0] || low[1] != json[1] || low[2] != json[2] || low[3]
                != json[3]);
        }
    }
    r
}

/// Whether a character is Unicode white space, as `char::is_whitespace`
/// has it.
pub open spec fn is_space(c: char) -> bool {
    let n = c as u32;
    (0x09 <= n <= 0x0D) || n == 0x20 || n == 0x85 || n == 0xA0 || n == 0x1680 || (0x2000 <= n
        <= 0x200A) || n == 0x2028 || n == 0x2029 || n == 0x202F || n == 0x205F || n == 0x3000
}

/// Whether a character is Unicode white space.
pub fn is_space_char(c: char) -> (r: bool)
    ensures
        r == is_space(c),
{
    let n = c as u32;
    (0x09 <= n && n <= 0x0D) || n == 0x20 || n == 0x85 || n == 0xA0 || n == 0x1680 || (0x2000
        <= n && n <= 0x200A) || n == 0x2028 || n == 0x2029 || n == 0x202F || n == 0x205F || n
        == 0x3000
}

/// Whether a text is empty or all white space.
pub open spec fn is_blank(s: Seq<char>) -> bool {
    forall|i: int| 0 <= i < s.len() ==> is_space(s[i])
}

/// Whether a string is empty or all white space.
pub fn is_blank_str(s: &str) -> (r: bool)
    ensures
        r == is_blank(s@),
{
    let chars = chars_of(s);
    let mut i: usize = 0;
    while i < chars.len()
        invariant
            i <= chars.len(),
            chars@ == s@,
            forall|j: int| 0 <= j < i ==> is_space(chars@[j]),
        decreases chars.len() - i,
    {
        if !is_space_char(chars[i]) {
            return false;
        }
        i += 1;
    }
    true
}

/// A word in progress, closed: nothing if it is empty, else the word.
pub open spec fn closed_word(word: Seq<char>) -> Seq<Seq<char>> {
    if word.len() == 0 {
        Seq::empty()
    } else {
        seq![word]
    }
}

/// The words of `s` that follow a word in progress `word`: white space
/// closes the word in progress, any other character extends it.
pub open spec fn words_after(s: Seq<char>, word: Seq<char>) -> Seq<Seq<char>>
    decreases s.len(),
{
    if s.len() == 0 {
        closed_word(word)
    } else if is_space(s[0]) {
        closed_word(word) + words_after(s.skip(1), Seq::empty())
    } else {
        words_after(s.skip(1), word.push(s[0]))
    }
}

/// The words of a text: its maximal runs of characters that are not white
/// space, in order.
pub open spec fn words(s: Seq<char>) -> Seq<Seq<char>> {
    words_after(s, Seq::empty())
}

/// Splits a string on white space into its words.
pub fn split_words(s: &str) -> (r: Vec<String>)
    ensures
        r.deep_view() == words(s@),
{
    let chars = chars_of(s);
    let mut out: Vec<String> = Vec::new();
    let mut word: Vec<char> = Vec::new();
    let mut i: usize = 0;
    assert(chars@.skip(0) == chars@);
    assert(out.deep_view() =~= Seq::<Seq<char>>::empty());
    while i < chars.len()
        invariant
            i <= chars.len(),
            chars@ == s@,
            words(s@) == out.deep_view() + words_after(chars@.skip(i as int), word@),
        decreases chars.len() - i,
    {
        let ghost rest = chars@.skip(i as int);
        let ghost before = out.deep_view();
        let ghost w0 = word@;
        assert(rest.skip(1) == chars@.skip(i + 1));
        if is_space_char(chars[i]) {
            if word.len() > 0 {
                out.push(string_of(&word));
                word = Vec::new();
            }
            proof {
                let later = words_after(rest.skip(1), Seq::empty());
                assert(out.deep_view() =~= before + closed_word(w0));
                assert(word@ =~= Seq::<char>::empty());
                assert(before + (closed_word(w0) + later) =~= (before + closed_word(w0))
                    + later);
            }
        } else {
            word.push(chars[i]);
        }
        i += 1;
    }
    assert(chars@.skip(chars.len() as int).len() == 0);
    let ghost before = out.deep_view();
    if word.len() > 0 {
        out.push(string_of(&word));
        assert(out.deep_view() =~= before + closed_word(word@));
    } else {
        assert(before + closed_word(word@) =~= before);
    }
    out
}

/// Lexicographic order on texts, character by character by code point: the
/// order of `str`.
pub open spec fn text_le(a: Seq<char>, b: Seq<char>) -> bool
    decreases a.len(),
{
    if a.len() == 0 {
        true
    } else if b.len() == 0 {
        false
    } else if (a[0] as u32) == (b[0] as u32) {
        text_le(a.skip(1), b.skip(1))
    } else {
        (a[0] as u32) < (b[0] as u32)
    }
}

/// Whether `a` comes before `b`, or equals it, in lexicographic order.
pub fn chars_le(a: &Vec<char>, b: &Vec<char>) -> (r: bool)
    ensures
        r == text_le(a@, b@),
{
    let mut i: usize = 0;
    assert(a@.skip(0) == a@);
    assert(b@.skip(0) == b@);
    while i < a.len() && i < b.len()
        invariant
            i <= a.len(),
            i <= b.len(),
            text_le(a@, b@) == text_le(a@.skip(i as int), b@.skip(i as int)),
        decreases a.len() - i,
    {
        assert(a@.skip(i as int).skip(1) == a@.skip(i + 1));
        assert(b@.skip(i as int).skip(1) == b@.skip(i + 1));
        if (a[i] as u32) != (b[i] as u32) {
            return (a[i] as u32) < (b[i] as u32);
        }
        i += 1;
    }
    i == a.len()
}

/// The order is total.
pub proof fn lemma_text_le_total(a: Seq<char>, b: Seq<char>)
    ensures
        text_le(a, b) || text_le(b, a),
    decreases a.len(),
{
    if a.len() > 0 && b.len() > 0 && (a[0] as u32) == (b[0] as u32) {
        lemma_text_le_total(a.skip(1), b.skip(1));
    }
}

/// The order is transitive.
pub proof fn lemma_text_le_trans(a: Seq<char>, b: Seq<char>, c: Seq<char>)
    requires
        text_le(a, b),
        text_le(b, c),
    ensures
        text_le(a, c),
    decreases a.len(),
{
    if a.len() > 0 && b.len() > 0 && c.len() > 0 && (a[0] as u32) == (b[0] as u32) && (b[0] as u32)
        == (c[0] as u32) {
        lemma_text_le_trans(a.skip(1), b.skip(1), c.skip(1));
    }
}

/// The decimal digits of a natural number, most significant first.
pub open spec fn digits(n: nat) -> Seq<char>
    decreases n,
{
    if n < 10 {
        seq![(48 + n) as char]
    } else {
        digits(n / 10).push((48 + n % 10) as char)
    }
}

/// An integer in decimal, with a leading `-` if it is negative.
pub open spec fn decimal(n: int) -> Seq<char> {
    if n < 0 {
        seq!['-'] + digits((-n) as nat)
    } else {
        digits(n as nat)
    }
}

/// The decimal digits of a number.
pub fn digits_of(n: u64) -> (r: Vec<char>)
    ensures
        r@ == digits(n as nat),
    decreases n,
{
    if n < 10 {
        let mut out: Vec<char> = Vec::new();
        out.push(((48 + n) as u8) as char);
        assert(out@ =~= digits(n as nat));
        out
    } else {
        let mut out = digits_of(n / 10);
        out.push(((48 + n % 10) as u8) as char);
        out
    }
}

/// A 32-bit integer in decimal.
pub fn decimal_of(n: i32) -> (r: Vec<char>)
    ensures
        r@ == decimal(n as int),
{
    let mut out: Vec<char> = Vec::new();
    if n < 0 {
        out.push('-');
        let m: u64 = (-(n as i64)) as u64;
        let d = digits_of(m);
        append_chars(&mut out, &d);
        assert(out@ =~= decimal(n as int));
        out
    } else {
        digits_of(n as u64)
    }
}

/// The number of white-space characters at the start of a text.
pub open spec fn leading_spaces(s: Seq<char>) -> nat
    decreases s.len(),
{
    if s.len() > 0 && is_space(s[0]) {
        1 + leading_spaces(s.skip(1))
    } else {
        0
    }
}

/// The number of white-space characters at the end of a text.
pub open spec fn trailing_spaces(s: Seq<char>) -> nat
    decreases s.len(),
{
    if s.len() > 0 && is_space(s.last()) {
        1 + trailing_spaces(s.drop_last())
    } else {
        0
    }
}

/// A text without the white space at its start and at its end.
pub open spec fn trimmed(s: Seq<char>) -> Seq<char> {
    let t = s.skip(leading_spaces(s) as int);
    t.take(t.len() - trailing_spaces(t))
}

/// The characters of a text without the white space at its start and at
/// its end.
pub fn trim_chars(s: &Vec<char>) -> (r: Vec<char>)
    ensures
        r@ == trimmed(s@),
{
    let mut a: usize = 0;
    assert(s@.skip(0) == s@);
    while a < s.len() && is_space_char(s[a])
        invariant
            a <= s.len(),
            leading_spaces(s@) == a + leading_spaces(s@.skip(a as int)),
        decreases s.len() - a,
    {
        assert(s@.skip(a as int).skip(1) == s@.skip(a + 1));
        a += 1;
    }
    let t = tail_chars(s, a);
    let mut b: usize = t.len();
    assert(t@.take(b as int) == t@);
    while b > 0 && is_space_char(t[b - 1])
        invariant
            b <= t.len(),
            trailing_spaces(t@) == (t.len() - b) + trailing_spaces(t@.take(b as int)),
        decreases b,
    {
        assert(t@.take(b as int).drop_last() == t@.take(b - 1));
        b -= 1;
    }
    let mut out: Vec<char> = Vec::new();
    let mut i: usize = 0;
    while i < b
        invariant
            i <= b <= t.len(),
            out@ == t@.take(i as int),
        decreases b - i,
    {
        out.push(t[i]);
        i += 1;
        assert(out@ == t@.take(i as int));
    }
    out
}

/// A text with each ASCII capital letter replaced by its small letter, as
/// characters.
pub fn ascii_lower_chars(s: &Vec<char>) -> (r: Vec<char>)
    ensures
        r@ == ascii_lower(s@),
{
    let mut out: Vec<char> = Vec::new();
    let mut i: usize = 0;
    while i < s.len()
        invariant
            i <= s.len(),
            out@ == ascii_lower(s@).take(i as int),
        decreases s.len() - i,
    {
        out.push(to_ascii_lower_char(s[i]));
        i += 1;
        assert(out@ =~= ascii_lower(s@).take(i as int));
    }
    assert(ascii_lower(s@).take(s.len() as int) =~= ascii_lower(s@));
    out
}

} // verus!
