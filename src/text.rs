//! Character-level text helpers shared by the matching and scoring code.
use vstd::prelude::*;
use vstd::string::StrSliceExecFns;

verus! {

/// What the standard library's `str::to_lowercase` makes of a text.
pub uninterp spec fn lower_of(s: Seq<char>) -> Seq<char>;

/// What the standard library's `char::is_alphanumeric` says of a character.
pub uninterp spec fn alnum(c: char) -> bool;

/// `needle` occurs in `hay` as a contiguous run of characters.
pub open spec fn has_infix(hay: Seq<char>, needle: Seq<char>) -> bool {
    exists|i: int| 0 <= i && i + needle.len() <= hay.len() && #[trigger] hay.subrange(i, i + needle.len()) == needle
}

/// `word` is one of the word tokens of `text`: whole words match, parts of
/// words do not.
pub open spec fn has_word(text: Seq<char>, word: Seq<char>) -> bool {
    tokens(text, Cut::Words).contains(word)
}

/// The views of a sequence of strings.
pub open spec fn views(v: Seq<String>) -> Seq<Seq<char>> {
    v.map_values(|s: String| s@)
}

/// The views of a sequence of character vectors.
pub open spec fn char_views(v: Seq<Vec<char>>) -> Seq<Seq<char>> {
    v.map_values(|s: Vec<char>| s@)
}

/// Unicode white space (the `White_Space` property), as `char::is_whitespace`
/// and `str::trim` understand it.
pub open spec fn is_space(c: char) -> bool {
    ('\u{9}' <= c && c <= '\u{d}') || c == ' ' || c == '\u{85}' || c == '\u{a0}' || c == '\u{1680}'
        || ('\u{2000}' <= c && c <= '\u{200a}') || c == '\u{2028}' || c == '\u{2029}' || c == '\u{202f}'
        || c == '\u{205f}' || c == '\u{3000}'
}

/// Whether `c` is white space.
pub fn is_space_exec(c: char) -> (r: bool)
    ensures
        r == is_space(c),
{
    ('\u{9}' <= c && c <= '\u{d}') || c == ' ' || c == '\u{85}' || c == '\u{a0}' || c == '\u{1680}'
        || ('\u{2000}' <= c && c <= '\u{200a}') || c == '\u{2028}' || c == '\u{2029}' || c == '\u{202f}'
        || c == '\u{205f}' || c == '\u{3000}'
}

/// A character that may stand inside a word token: alphanumeric, `-` or `_`.
pub open spec fn is_word_char(c: char) -> bool {
    alnum(c) || c == '-' || c == '_'
}

/// How a text is cut into tokens.
#[derive(Clone, Copy, PartialEq, Eq, Structural)]
pub enum Cut {
    /// Tokens are separated by whitespace.
    Whitespace,
    /// Tokens are maximal runs of word characters.
    Words,
}

pub open spec fn separates(cut: Cut, c: char) -> bool {
    match cut {
        Cut::Whitespace => is_space(c),
        Cut::Words => !is_word_char(c),
    }
}

/// Tokens finished so far, and the token being read, after the first `n` characters.
pub open spec fn cut_state(s: Seq<char>, cut: Cut, n: nat) -> (Seq<Seq<char>>, Seq<char>)
    decreases n,
{
    if n == 0 || n > s.len() {
        (Seq::empty(), Seq::empty())
    } else {
        let prev = cut_state(s, cut, (n - 1) as nat);
        let c = s[n - 1];
        if separates(cut, c) {
            if prev.1.len() > 0 {
                (prev.0.push(prev.1), Seq::empty())
            } else {
                prev
            }
        } else {
            (prev.0, prev.1.push(c))
        }
    }
}

/// The non-empty tokens of `s`, in order.
pub open spec fn tokens(s: Seq<char>, cut: Cut) -> Seq<Seq<char>> {
    let st = cut_state(s, cut, s.len());
    if st.1.len() > 0 {
        st.0.push(st.1)
    } else {
        st.0
    }
}

/// Relies on `char::is_alphanumeric`, whose answer depends on the character alone.
#[verifier::external_body]
fn is_alphanumeric(c: char) -> (r: bool)
    ensures
        r == alnum(c),
{
    c.is_alphanumeric()
}

/// Relies on `str::to_lowercase`, whose result depends on the text alone.
#[verifier::external_body]
pub fn lowercase(s: &str) -> (r: String)
    ensures
        r@ == lower_of(s@),
{
    s.to_lowercase()
}

/// Relies on `String: FromIterator<char>`: the string holds the characters in order.
#[verifier::external_body]
pub fn string_of(v: &Vec<char>) -> (r: String)
    ensures
        r@ == v@,
{
    v.iter().collect()
}

/// The characters of `s`, in order.
pub fn chars_of(s: &str) -> (r: Vec<char>)
    ensures
        r@ == s@,
{
    let n = s.unicode_len();
    let mut out: Vec<char> = Vec::new();
    let mut i: usize = 0;
    while i < n
        invariant
            n == s@.len(),
            i <= n,
            out@ == s@.subrange(0, i as int),
        decreases n - i,
    {
        let c = s.get_char(i);
        out.push(c);
        i += 1;
        assert(out@ =~= s@.subrange(0, i as int));
    }
    assert(out@ =~= s@);
    out
}

/// Whether two texts are equal.
pub fn same_text(a: &str, b: &str) -> (r: bool)
    ensures
        r == (a@ == b@),
{
    let x = chars_of(a);
    let y = chars_of(b);
    same_chars(&x, &y)
}

pub fn same_chars(x: &Vec<char>, y: &Vec<char>) -> (r: bool)
    ensures
        r == (x@ == y@),
{
    if x.len() != y.len() {
        return false;
    }
    let mut i: usize = 0;
    while i < x.len()
        invariant
            x@.len() == y@.len(),
            i <= x@.len(),
            forall|j: int| 0 <= j < i ==> x@[j] == y@[j],
        decreases x@.len() - i,
    {
        if x[i] != y[i] {
            return false;
        }
        i += 1;
    }
    assert(x@ =~= y@);
    true
}

/// Whether `needle` occurs in `hay` at position `at`.
pub fn occurs_at(hay: &Vec<char>, needle: &Vec<char>, at: usize) -> (r: bool)
    requires
        at + needle@.len() <= hay@.len(),
    ensures
        r == (hay@.subrange(at as int, at + needle@.len()) == needle@),
{
    let hl: usize = hay.len();
    let mut j: usize = 0;
    while j < needle.len()
        invariant
            at + needle@.len() <= hay@.len(),
            hl == hay@.len(),
            j <= needle@.len(),
            forall|k: int| 0 <= k < j ==> hay@[at + k] == needle@[k],
        decreases needle@.len() - j,
    {
        if hay[at + j] != needle[j] {
            assert(hay@.subrange(at as int, at + needle@.len())[j as int] != needle@[j as int]);
            return false;
        }
        j += 1;
    }
    assert(hay@.subrange(at as int, at + needle@.len()) =~= needle@);
    true
}

/// Whether `needle` occurs in `hay`.
pub fn contains_chars(hay: &Vec<char>, needle: &Vec<char>) -> (r: bool)
    ensures
        r == has_infix(hay@, needle@),
{
    if needle.len() > hay.len() {
        return false;
    }
    if needle.len() == 0 {
        assert(hay@.subrange(0int, 0int + needle@.len()) =~= needle@);
        return true;
    }
    let hl: usize = hay.len();
    let last = hl - needle.len();
    let mut i: usize = 0;
    while i <= last
        invariant
            hl == hay@.len(),
            needle@.len() > 0,
            last == hay@.len() - needle@.len(),
            needle@.len() <= hay@.len(),
            i <= last + 1,
            forall|k: int| 0 <= k < i ==> #[trigger] hay@.subrange(k, k + needle@.len()) != needle@,
        decreases last + 1 - i,
    {
        if occurs_at(hay, needle, i) {
            return true;
        }
        i += 1;
    }
    false
}

/// Whether `needle` occurs in `hay`.
pub fn contains_text(hay: &str, needle: &str) -> (r: bool)
    ensures
        r == has_infix(hay@, needle@),
{
    let h = chars_of(hay);
    let n = chars_of(needle);
    contains_chars(&h, &n)
}

/// Whether `c` may stand inside a word token.
pub fn is_word_char_exec(c: char) -> (r: bool)
    ensures
        r == is_word_char(c),
{
    is_alphanumeric(c) || c == '-' || c == '_'
}

pub fn separates_exec(cut: Cut, c: char) -> (r: bool)
    ensures
        r == separates(cut, c),
{
    match cut {
        Cut::Whitespace => is_space_exec(c),
        Cut::Words => !(is_alphanumeric(c) || c == '-' || c == '_'),
    }
}

/// The non-empty tokens of `s`.
pub fn split_tokens(s: &Vec<char>, cut: Cut) -> (r: Vec<Vec<char>>)
    ensures
        char_views(r@) == tokens(s@, cut),
{
    let mut done: Vec<Vec<char>> = Vec::new();
    let mut cur: Vec<char> = Vec::new();
    let mut i: usize = 0;
    while i < s.len()
        invariant
            i <= s@.len(),
            (char_views(done@), cur@) == cut_state(s@, cut, i as nat),
        decreases s@.len() - i,
    {
        let c = s[i];
        proof {
            assert(cut_state(s@, cut, (i + 1) as nat) == {
                let prev = cut_state(s@, cut, i as nat);
                if separates(cut, c) {
                    if prev.1.len() > 0 { (prev.0.push(prev.1), Seq::<char>::empty()) } else { prev }
                } else {
                    (prev.0, prev.1.push(c))
                }
            });
        }
        if separates_exec(cut, c) {
            if cur.len() > 0 {
                let ghost before = done@;
                done.push(cur);
                cur = Vec::new();
                assert(char_views(done@) =~= char_views(before).push(cut_state(s@, cut, i as nat).1));
            }
        } else {
            cur.push(c);
        }
        i += 1;
    }
    if cur.len() > 0 {
        let ghost before = done@;
        let ghost last = cur@;
        done.push(cur);
        assert(char_views(done@) =~= char_views(before).push(last));
    }
    done
}

/// The non-empty tokens of a text.
pub fn split_text(s: &str, cut: Cut) -> (r: Vec<String>)
    ensures
        views(r@) == tokens(s@, cut),
{
    let cs = chars_of(s);
    let parts = split_tokens(&cs, cut);
    let mut out: Vec<String> = Vec::new();
    let mut i: usize = 0;
    while i < parts.len()
        invariant
            i <= parts@.len(),
            char_views(parts@) == tokens(s@, cut),
            views(out@) == char_views(parts@).subrange(0, i as int),
        decreases parts@.len() - i,
    {
        let t = string_of(&parts[i]);
        let ghost before = out@;
        out.push(t);
        assert(views(out@) =~= views(before).push(parts@[i as int]@));
        assert(views(out@) =~= char_views(parts@).subrange(0, i + 1));
        i += 1;
    }
    assert(views(out@) =~= char_views(parts@));
    out
}

/// Whether `word` is one of the word tokens of `text`.
pub fn word_in(text: &str, word: &str) -> (r: bool)
    ensures
        r == has_word(text@, word@),
{
    let words = split_text(text, Cut::Words);
    let mut i: usize = 0;
    while i < words.len()
        invariant
            views(words@) == tokens(text@, Cut::Words),
            i <= words@.len(),
            forall|k: int| 0 <= k < i ==> #[trigger] views(words@)[k] != word@,
        decreases words@.len() - i,
    {
        assert(views(words@)[i as int] == words@[i as int]@);
        if same_text(words[i].as_str(), word) {
            return true;
        }
        i += 1;
    }
    false
}

/// `parts` joined with `sep` between neighbours.
pub open spec fn joined(parts: Seq<Seq<char>>, sep: Seq<char>) -> Seq<char>
    decreases parts.len(),
{
    if parts.len() == 0 {
        Seq::empty()
    } else if parts.len() == 1 {
        parts[0]
    } else {
        joined(parts.drop_last(), sep) + sep + parts.last()
    }
}

/// The strings of `parts` joined with `sep` between neighbours.
pub fn join_texts(parts: &Vec<String>, sep: &str) -> (r: String)
    ensures
        r@ == joined(views(parts@), sep@),
{
    let mut out = String::new();
    let mut i: usize = 0;
    while i < parts.len()
        invariant
            i <= parts@.len(),
            out@ == joined(views(parts@.subrange(0, i as int)), sep@),
        decreases parts@.len() - i,
    {
        let ghost before = out@;
        if i > 0 {
            out.append(sep);
        }
        out.append(parts[i].as_str());
        proof {
            let pre = views(parts@.subrange(0, i as int));
            let now = views(parts@.subrange(0, i + 1));
            assert(now.drop_last() =~= pre);
            assert(now.last() == parts@[i as int]@);
            if i == 0 {
                assert(now.len() == 1);
            }
        }
        i += 1;
    }
    assert(parts@.subrange(0, parts@.len() as int) =~= parts@);
    out
}

} // verus!
