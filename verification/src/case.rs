//! Serde `rename_all` case conventions: splitting a Rust identifier into
//! words and joining them again in a target case.

use vstd::prelude::*;
use vstd::string::*;
use vstd::utf8::*;

use crate::schema::strings_view;
use crate::typescript::{join, join_strings};

verus! {

// ---------------------------------------------------------------------------
// Character classes and case mappings of the standard library
// ---------------------------------------------------------------------------

/// Whether `char::is_uppercase` holds of a character (its Unicode
/// `Uppercase` property).
pub uninterp spec fn is_upper(c: char) -> bool;

/// Whether `char::is_lowercase` holds of a character (its Unicode
/// `Lowercase` property).
pub uninterp spec fn is_lower(c: char) -> bool;

/// What `str::to_lowercase` gives for a string.
pub uninterp spec fn lowercase(s: Seq<char>) -> Seq<char>;

/// What `str::to_uppercase` gives for a string.
pub uninterp spec fn uppercase(s: Seq<char>) -> Seq<char>;

/// What `char::to_uppercase` yields for a character, as a string.
pub uninterp spec fn char_uppercase(c: char) -> Seq<char>;

/// `char::is_uppercase`: the result is the name `is_upper` of the
/// character. Among ASCII characters exactly `A`..`Z` have the property;
/// beyond ASCII it is left to the Unicode tables of the standard library.
#[verifier::external_body]
fn char_is_upper(c: char) -> (r: bool)
    ensures
        r == is_upper(c),
        (c as u32) < 128 ==> (r <==> ('A' <= c && c <= 'Z')),
{
    c.is_uppercase()
}

/// `char::is_lowercase`: the result is the name `is_lower` of the
/// character. Among ASCII characters exactly `a`..`z` have the property;
/// beyond ASCII it is left to the Unicode tables of the standard library.
#[verifier::external_body]
fn char_is_lower(c: char) -> (r: bool)
    ensures
        r == is_lower(c),
        (c as u32) < 128 ==> (r <==> ('a' <= c && c <= 'z')),
{
    c.is_lowercase()
}

/// Whether every character of a string is ASCII.
pub open spec fn is_ascii_text(s: Seq<char>) -> bool {
    forall|i: int| 0 <= i < s.len() ==> (#[trigger] s[i] as u32) < 128
}

/// An ASCII upper-case letter in lower case; any other character as it is.
pub open spec fn ascii_char_lower(c: char) -> char {
    if 'A' <= c && c <= 'Z' {
        ((c as u32) + 32) as char
    } else {
        c
    }
}

/// An ASCII lower-case letter in upper case; any other character as it is.
pub open spec fn ascii_char_upper(c: char) -> char {
    if 'a' <= c && c <= 'z' {
        ((c as u32) - 32) as char
    } else {
        c
    }
}

/// A string with its ASCII letters in lower case (`to_ascii_lowercase`).
pub open spec fn ascii_lower(s: Seq<char>) -> Seq<char> {
    Seq::new(s.len(), |i: int| ascii_char_lower(s[i]))
}

/// A string with its ASCII letters in upper case (`to_ascii_uppercase`).
pub open spec fn ascii_upper(s: Seq<char>) -> Seq<char> {
    Seq::new(s.len(), |i: int| ascii_char_upper(s[i]))
}

/// `str::to_lowercase`: the result is the name `lowercase` of the string.
/// On an ASCII string it maps `A`..`Z` to `a`..`z` and keeps every other
/// character; beyond ASCII the mapping is left to the Unicode tables of
/// the standard library.
#[verifier::external_body]
fn to_lowercase(s: &str) -> (r: String)
    ensures
        r@ == lowercase(s@),
        is_ascii_text(s@) ==> r@ == ascii_lower(s@),
{
    s.to_lowercase()
}

/// `str::to_uppercase`: the result is the name `uppercase` of the string.
/// On an ASCII string it maps `a`..`z` to `A`..`Z` and keeps every other
/// character; beyond ASCII the mapping is left to the Unicode tables of
/// the standard library.
#[verifier::external_body]
fn to_uppercase(s: &str) -> (r: String)
    ensures
        r@ == uppercase(s@),
        is_ascii_text(s@) ==> r@ == ascii_upper(s@),
{
    s.to_uppercase()
}

/// `char::to_uppercase`, its characters collected into a string: the
/// result is the name `char_uppercase` of the character. An ASCII
/// character gives itself with `a`..`z` mapped to `A`..`Z`.
#[verifier::external_body]
fn char_to_uppercase(c: char) -> (r: String)
    ensures
        r@ == char_uppercase(c),
        (c as u32) < 128 ==> r@ == seq![ascii_char_upper(c)],
{
    c.to_uppercase().collect()
}

/// `String::from_iter` over characters: the string of exactly those
/// characters, in order.
#[verifier::external_body]
pub(crate) fn string_from_chars(cs: &[char]) -> (r: String)
    ensures
        r@ == cs@,
{
    cs.iter().collect()
}

// ---------------------------------------------------------------------------
// Strings as characters
// ---------------------------------------------------------------------------

/// The characters of a string.
pub(crate) fn chars_of(s: &str) -> (r: Vec<char>)
    ensures
        r@ == s@,
{
    let n = s.unicode_len();
    let mut out: Vec<char> = Vec::new();
    let mut i: usize = 0;
    while i < n
        invariant
            n == s@.len(),
            i <= n,
            out@ == s@.take(i as int),
        decreases n - i,
    {
        out.push(s.get_char(i));
        assert(out@ =~= s@.take(i + 1));
        i = i + 1;
    }
    assert(s@.take(n as int) =~= s@);
    out
}

/// Whether two strings are equal.
pub fn str_eq(a: &str, b: &str) -> (r: bool)
    ensures
        r == (a@ == b@),
{
    let x = a.as_bytes();
    let y = b.as_bytes();
    proof {
        encode_utf8_decode_utf8(a@);
        encode_utf8_decode_utf8(b@);
    }
    if x.len() != y.len() {
        return false;
    }
    let mut i: usize = 0;
    while i < x.len()
        invariant
            x@ == a.spec_bytes(),
            y@ == b.spec_bytes(),
            x@.len() == y@.len(),
            i <= x@.len(),
            forall|j: int| 0 <= j < i ==> x@[j] == y@[j],
        decreases x@.len() - i,
    {
        if x[i] != y[i] {
            return false;
        }
        i = i + 1;
    }
    assert(x@ =~= y@);
    true
}

// ---------------------------------------------------------------------------
// Words of an identifier
// ---------------------------------------------------------------------------

/// The words of the first `n` characters, split at underscores, and the
/// word still open after them.
pub open spec fn underscore_scan(cs: Seq<char>, n: nat) -> (Seq<Seq<char>>, Seq<char>)
    decreases n,
{
    if n == 0 || n > cs.len() {
        (Seq::empty(), Seq::empty())
    } else {
        let (ws, cur) = underscore_scan(cs, (n - 1) as nat);
        let c = cs[n - 1];
        if c == '_' {
            (if cur.len() > 0 {
                ws.push(cur)
            } else {
                ws
            }, Seq::empty())
        } else {
            (ws, cur.push(c))
        }
    }
}

/// Whether a new word starts at position `i`: an uppercase character after
/// a lowercase one, or the last uppercase character of an acronym, which
/// a lowercase character follows.
pub open spec fn is_boundary(cs: Seq<char>, i: int) -> bool {
    &&& 0 < i < cs.len()
    &&& is_upper(cs[i])
    &&& (is_lower(cs[i - 1]) || (i + 1 < cs.len() && is_lower(cs[i + 1])))
}

/// The words of the first `n` characters, split at case boundaries, and
/// the word still open after them.
pub open spec fn case_scan(cs: Seq<char>, n: nat) -> (Seq<Seq<char>>, Seq<char>)
    decreases n,
{
    if n == 0 || n > cs.len() {
        (Seq::empty(), Seq::empty())
    } else {
        let (ws, cur) = case_scan(cs, (n - 1) as nat);
        let c = cs[n - 1];
        if is_boundary(cs, n - 1) && cur.len() > 0 {
            (ws.push(cur), seq![c])
        } else {
            (ws, cur.push(c))
        }
    }
}

/// The words at the end of a scan: those closed, and the open one unless
/// it is empty.
pub open spec fn close_words(scan: (Seq<Seq<char>>, Seq<char>)) -> Seq<Seq<char>> {
    if scan.1.len() > 0 {
        scan.0.push(scan.1)
    } else {
        scan.0
    }
}

/// The words of an identifier: its non-empty parts between underscores
/// when it holds one (`snake_case`, `SCREAMING_SNAKE_CASE`), else its parts
/// between case boundaries (`PascalCase`, `camelCase`, with an acronym
/// kept whole: `HTTPSPort` is `HTTPS`, `Port`).
pub open spec fn words(cs: Seq<char>) -> Seq<Seq<char>> {
    if cs.contains('_') {
        close_words(underscore_scan(cs, cs.len()))
    } else {
        close_words(case_scan(cs, cs.len()))
    }
}

/// A word of an ASCII identifier: ASCII, with no underscore.
pub open spec fn plain_word(w: Seq<char>) -> bool {
    forall|j: int| 0 <= j < w.len() ==> (#[trigger] w[j] as u32) < 128 && w[j] != '_'
}

proof fn lemma_underscore_scan_plain(cs: Seq<char>, n: nat)
    requires
        is_ascii_text(cs),
    ensures
        forall|k: int| 0 <= k < underscore_scan(cs, n).0.len() ==> plain_word(#[trigger] underscore_scan(cs, n).0[k]),
        plain_word(underscore_scan(cs, n).1),
    decreases n,
{
    if n > 0 && n <= cs.len() {
        lemma_underscore_scan_plain(cs, (n - 1) as nat);
        let (ws, cur) = underscore_scan(cs, (n - 1) as nat);
        let c = cs[n - 1];
        assert((c as u32) < 128);
        if c != '_' {
            assert forall|j: int| 0 <= j < cur.push(c).len() implies (#[trigger] cur.push(c)[j] as u32) < 128 && cur.push(c)[j] != '_' by {
                if j < cur.len() {
                    assert(cur.push(c)[j] == cur[j]);
                }
            }
        } else if cur.len() > 0 {
            assert forall|k: int| 0 <= k < ws.push(cur).len() implies plain_word(#[trigger] ws.push(cur)[k]) by {
                if k < ws.len() {
                    assert(ws.push(cur)[k] == ws[k]);
                }
            }
        }
    }
}

proof fn lemma_case_scan_plain(cs: Seq<char>, n: nat)
    requires
        is_ascii_text(cs),
        !cs.contains('_'),
    ensures
        forall|k: int| 0 <= k < case_scan(cs, n).0.len() ==> plain_word(#[trigger] case_scan(cs, n).0[k]),
        plain_word(case_scan(cs, n).1),
    decreases n,
{
    if n > 0 && n <= cs.len() {
        lemma_case_scan_plain(cs, (n - 1) as nat);
        let (ws, cur) = case_scan(cs, (n - 1) as nat);
        let c = cs[n - 1];
        assert((c as u32) < 128);
        assert(c != '_') by {
            if c == '_' {
                assert(cs.contains('_'));
            }
        }
        assert(plain_word(seq![c]));
        assert forall|j: int| 0 <= j < cur.push(c).len() implies (#[trigger] cur.push(c)[j] as u32) < 128 && cur.push(c)[j] != '_' by {
            if j < cur.len() {
                assert(cur.push(c)[j] == cur[j]);
            }
        }
        if is_boundary(cs, n - 1) && cur.len() > 0 {
            assert forall|k: int| 0 <= k < ws.push(cur).len() implies plain_word(#[trigger] ws.push(cur)[k]) by {
                if k < ws.len() {
                    assert(ws.push(cur)[k] == ws[k]);
                }
            }
        }
    }
}

/// The words of an ASCII identifier are ASCII and hold no underscore.
pub proof fn lemma_words_plain(cs: Seq<char>)
    requires
        is_ascii_text(cs),
    ensures
        forall|k: int| 0 <= k < words(cs).len() ==> plain_word(#[trigger] words(cs)[k]),
{
    let scan = if cs.contains('_') {
        lemma_underscore_scan_plain(cs, cs.len());
        underscore_scan(cs, cs.len())
    } else {
        lemma_case_scan_plain(cs, cs.len());
        case_scan(cs, cs.len())
    };
    assert forall|k: int| 0 <= k < close_words(scan).len() implies plain_word(#[trigger] close_words(scan)[k]) by {
        if k < scan.0.len() {
            if scan.1.len() > 0 {
                assert(close_words(scan)[k] == scan.0[k]);
            }
        }
    }
}

/// [`is_boundary`] with the ASCII letter classes.
pub open spec fn ascii_boundary(cs: Seq<char>, i: int) -> bool {
    &&& 0 < i < cs.len()
    &&& 'A' <= cs[i] && cs[i] <= 'Z'
    &&& (('a' <= cs[i - 1] && cs[i - 1] <= 'z') || (i + 1 < cs.len() && 'a' <= cs[i + 1] && cs[i + 1] <= 'z'))
}

/// [`case_scan`] with the ASCII letter classes.
pub open spec fn ascii_case_scan(cs: Seq<char>, n: nat) -> (Seq<Seq<char>>, Seq<char>)
    decreases n,
{
    if n == 0 || n > cs.len() {
        (Seq::empty(), Seq::empty())
    } else {
        let (ws, cur) = ascii_case_scan(cs, (n - 1) as nat);
        let c = cs[n - 1];
        if ascii_boundary(cs, n - 1) && cur.len() > 0 {
            (ws.push(cur), seq![c])
        } else {
            (ws, cur.push(c))
        }
    }
}

/// [`words`] with the ASCII letter classes: the words of an ASCII
/// identifier.
pub open spec fn ascii_words(cs: Seq<char>) -> Seq<Seq<char>> {
    if cs.contains('_') {
        close_words(underscore_scan(cs, cs.len()))
    } else {
        close_words(ascii_case_scan(cs, cs.len()))
    }
}

proof fn lemma_case_scans_agree(cs: Seq<char>, n: nat)
    requires
        forall|j: int| 0 <= j < n ==> is_boundary(cs, j) == ascii_boundary(cs, j),
    ensures
        case_scan(cs, n) == ascii_case_scan(cs, n),
    decreases n,
{
    if n > 0 && n <= cs.len() {
        lemma_case_scans_agree(cs, (n - 1) as nat);
        assert(is_boundary(cs, n - 1) == ascii_boundary(cs, n - 1));
    }
}

/// Splits a Rust identifier into words, handling both `PascalCase` and
/// `snake_case` inputs.
pub fn split_words(ident: &str) -> (r: Vec<String>)
    ensures
        strings_view(r@) == words(ident@),
        is_ascii_text(ident@) ==> words(ident@) == ascii_words(ident@),
{
    let cs = chars_of(ident);
    let n = cs.len();
    let mut has_underscore = false;
    let mut k: usize = 0;
    while k < n
        invariant
            n == cs@.len(),
            k <= n,
            has_underscore == exists|j: int| 0 <= j < k && cs@[j] == '_',
        decreases n - k,
    {
        if cs[k] == '_' {
            has_underscore = true;
        }
        k = k + 1;
    }
    let mut out: Vec<String> = Vec::new();
    let mut current: Vec<char> = Vec::new();
    let mut i: usize = 0;
    while i < n
        invariant
            n == cs@.len(),
            cs@ == ident@,
            i <= n,
            has_underscore == cs@.contains('_'),
            has_underscore ==> underscore_scan(cs@, i as nat) == (strings_view(out@), current@),
            !has_underscore ==> case_scan(cs@, i as nat) == (strings_view(out@), current@),
            is_ascii_text(ident@) && !has_underscore ==> forall|j: int|
                0 <= j < i ==> is_boundary(cs@, j) == ascii_boundary(cs@, j),
        decreases n - i,
    {
        let c = cs[i];
        let ghost before = out@;
        if has_underscore {
            if c == '_' {
                if current.len() > 0 {
                    out.push(string_from_chars(current.as_slice()));
                    assert(strings_view(out@) =~= strings_view(before).push(current@));
                }
                current = Vec::new();
            } else {
                current.push(c);
            }
        } else {
            let boundary = if i > 0 && char_is_upper(c) {
                let prev_lower = char_is_lower(cs[i - 1]);
                let next_lower = i + 1 < n && char_is_lower(cs[i + 1]);
                prev_lower || next_lower
            } else {
                false
            };
            assert(boundary == is_boundary(cs@, i as int));
            proof {
                if is_ascii_text(ident@) {
                    assert((cs@[i as int] as u32) < 128);
                    if i > 0 {
                        assert((cs@[i - 1] as u32) < 128);
                    }
                    if i + 1 < n {
                        assert((cs@[i + 1] as u32) < 128);
                    }
                    assert(is_boundary(cs@, i as int) == ascii_boundary(cs@, i as int));
                }
            }
            if boundary && current.len() > 0 {
                out.push(string_from_chars(current.as_slice()));
                assert(strings_view(out@) =~= strings_view(before).push(current@));
                current = Vec::new();
                current.push(c);
                assert(current@ =~= seq![c]);
            } else {
                current.push(c);
            }
        }
        i = i + 1;
    }
    if current.len() > 0 {
        let ghost before = out@;
        out.push(string_from_chars(current.as_slice()));
        assert(strings_view(out@) =~= strings_view(before).push(current@));
    }
    proof {
        if is_ascii_text(ident@) && !has_underscore {
            lemma_case_scans_agree(cs@, n as nat);
        }
    }
    out
}

// ---------------------------------------------------------------------------
// Case conventions
// ---------------------------------------------------------------------------

/// Serde `rename_all` case conventions.
#[derive(Debug, Clone, Copy, PartialEq, Eq)]
pub enum RenameAll {
    Lower,
    Upper,
    Pascal,
    Camel,
    Snake,
    ScreamingSnake,
    Kebab,
    ScreamingKebab,
}

/// The convention a `rename_all` value names, if any.
pub open spec fn parse_rename_all(s: Seq<char>) -> Option<RenameAll> {
    if s == "lowercase"@ {
        Some(RenameAll::Lower)
    } else if s == "UPPERCASE"@ {
        Some(RenameAll::Upper)
    } else if s == "PascalCase"@ {
        Some(RenameAll::Pascal)
    } else if s == "camelCase"@ {
        Some(RenameAll::Camel)
    } else if s == "snake_case"@ {
        Some(RenameAll::Snake)
    } else if s == "SCREAMING_SNAKE_CASE"@ {
        Some(RenameAll::ScreamingSnake)
    } else if s == "kebab-case"@ {
        Some(RenameAll::Kebab)
    } else if s == "SCREAMING-KEBAB-CASE"@ {
        Some(RenameAll::ScreamingKebab)
    } else {
        None
    }
}

/// Each word in lower case.
pub open spec fn lower_words(ws: Seq<Seq<char>>) -> Seq<Seq<char>> {
    Seq::new(ws.len(), |i: int| lowercase(ws[i]))
}

/// Each word in upper case.
pub open spec fn upper_words(ws: Seq<Seq<char>>) -> Seq<Seq<char>> {
    Seq::new(ws.len(), |i: int| uppercase(ws[i]))
}

/// A word with its first character in upper case and the rest in lower
/// case; the empty word stays empty.
pub open spec fn capitalized(w: Seq<char>) -> Seq<char> {
    if w.len() == 0 {
        Seq::empty()
    } else {
        char_uppercase(w[0]) + lowercase(w.drop_first())
    }
}

/// Each word capitalized, the first one too unless `lower_first`, which
/// keeps it in lower case.
pub open spec fn capitalized_words(ws: Seq<Seq<char>>, lower_first: bool) -> Seq<Seq<char>> {
    Seq::new(
        ws.len(),
        |i: int|
            if i == 0 && lower_first {
                lowercase(ws[i])
            } else {
                capitalized(ws[i])
            },
    )
}

/// An identifier in a case convention: its words, mapped and joined as the
/// convention says.
pub open spec fn apply_case(case: RenameAll, ident: Seq<char>) -> Seq<char> {
    let ws = words(ident);
    match case {
        RenameAll::Lower => join(lower_words(ws), Seq::empty()),
        RenameAll::Upper => join(upper_words(ws), Seq::empty()),
        RenameAll::Pascal => join(capitalized_words(ws, false), Seq::empty()),
        RenameAll::Camel => join(capitalized_words(ws, true), Seq::empty()),
        RenameAll::Snake => join(lower_words(ws), "_"@),
        RenameAll::ScreamingSnake => join(upper_words(ws), "_"@),
        RenameAll::Kebab => join(lower_words(ws), "-"@),
        RenameAll::ScreamingKebab => join(upper_words(ws), "-"@),
    }
}

/// Each word with its ASCII letters in lower case.
pub open spec fn ascii_lower_words(ws: Seq<Seq<char>>) -> Seq<Seq<char>> {
    Seq::new(ws.len(), |i: int| ascii_lower(ws[i]))
}

/// Each word with its ASCII letters in upper case.
pub open spec fn ascii_upper_words(ws: Seq<Seq<char>>) -> Seq<Seq<char>> {
    Seq::new(ws.len(), |i: int| ascii_upper(ws[i]))
}

/// An ASCII word capitalized: its first character in upper case, the rest
/// in lower case.
pub open spec fn ascii_capitalized(w: Seq<char>) -> Seq<char> {
    if w.len() == 0 {
        Seq::empty()
    } else {
        seq![ascii_char_upper(w[0])] + ascii_lower(w.drop_first())
    }
}

/// ASCII words mapped and joined as a convention says.
pub open spec fn ascii_joined(case: RenameAll, ws: Seq<Seq<char>>) -> Seq<char> {
    match case {
        RenameAll::Lower => join(ascii_lower_words(ws), Seq::empty()),
        RenameAll::Upper => join(ascii_upper_words(ws), Seq::empty()),
        RenameAll::Pascal => join(Seq::new(ws.len(), |i: int| ascii_capitalized(ws[i])), Seq::empty()),
        RenameAll::Camel => join(
            Seq::new(
                ws.len(),
                |i: int|
                    if i == 0 {
                        ascii_lower(ws[i])
                    } else {
                        ascii_capitalized(ws[i])
                    },
            ),
            Seq::empty(),
        ),
        RenameAll::Snake => join(ascii_lower_words(ws), "_"@),
        RenameAll::ScreamingSnake => join(ascii_upper_words(ws), "_"@),
        RenameAll::Kebab => join(ascii_lower_words(ws), "-"@),
        RenameAll::ScreamingKebab => join(ascii_upper_words(ws), "-"@),
    }
}

/// An ASCII identifier in a case convention: its words mapped with the
/// ASCII case mappings and joined as the convention says.
pub open spec fn ascii_case(case: RenameAll, ident: Seq<char>) -> Seq<char> {
    ascii_joined(case, words(ident))
}

/// A word capitalized.
fn capitalize(w: &str) -> (r: String)
    ensures
        r@ == capitalized(w@),
        is_ascii_text(w@) ==> r@ == ascii_capitalized(w@),
{
    let cs = chars_of(w);
    if cs.len() == 0 {
        return String::new();
    }
    let mut tail = cs.clone();
    let first = tail.remove(0);
    assert(tail@ =~= w@.drop_first());
    let rest = string_from_chars(tail.as_slice());
    proof {
        if is_ascii_text(w@) {
            assert(first == w@[0]);
            assert((first as u32) < 128);
            assert forall|i: int| 0 <= i < rest@.len() implies (#[trigger] rest@[i] as u32) < 128 by {
                assert(rest@[i] == w@[i + 1]);
            }
        }
    }
    let mut out = char_to_uppercase(first);
    let lower = to_lowercase(rest.as_str());
    out.append(lower.as_str());
    out
}

impl RenameAll {
    /// The convention a `rename_all` value names; `None` for an unknown
    /// value.
    pub fn parse(s: &str) -> (r: Option<RenameAll>)
        ensures
            r == parse_rename_all(s@),
    {
        if str_eq(s, "lowercase") {
            Some(RenameAll::Lower)
        } else if str_eq(s, "UPPERCASE") {
            Some(RenameAll::Upper)
        } else if str_eq(s, "PascalCase") {
            Some(RenameAll::Pascal)
        } else if str_eq(s, "camelCase") {
            Some(RenameAll::Camel)
        } else if str_eq(s, "snake_case") {
            Some(RenameAll::Snake)
        } else if str_eq(s, "SCREAMING_SNAKE_CASE") {
            Some(RenameAll::ScreamingSnake)
        } else if str_eq(s, "kebab-case") {
            Some(RenameAll::Kebab)
        } else if str_eq(s, "SCREAMING-KEBAB-CASE") {
            Some(RenameAll::ScreamingKebab)
        } else {
            None
        }
    }

    /// Converts an identifier to this case. `ident` is in its Rust
    /// form (`PascalCase` for variants, `snake_case` for fields).
    pub fn apply(self, ident: &str) -> (r: String)
        ensures
            r@ == apply_case(self, ident@),
            is_ascii_text(ident@) ==> r@ == ascii_case(self, ident@),
            is_ascii_text(ident@) ==> r@ == ascii_joined(self, ascii_words(ident@)),
    {
        let ws = split_words(ident);
        let ghost wv = strings_view(ws@);
        proof {
            if is_ascii_text(ident@) {
                lemma_words_plain(ident@);
            }
        }
        let mut mapped: Vec<String> = Vec::new();
        let mut i: usize = 0;
        while i < ws.len()
            invariant
                i <= ws@.len(),
                wv == strings_view(ws@),
                wv == words(ident@),
                mapped@.len() == i,
                forall|j: int|
                    0 <= j < i ==> #[trigger] mapped@[j]@ == match self {
                        RenameAll::Lower | RenameAll::Snake | RenameAll::Kebab => lowercase(wv[j]),
                        RenameAll::Upper | RenameAll::ScreamingSnake
                        | RenameAll::ScreamingKebab => uppercase(wv[j]),
                        RenameAll::Pascal => capitalized(wv[j]),
                        RenameAll::Camel => if j == 0 {
                            lowercase(wv[j])
                        } else {
                            capitalized(wv[j])
                        },
                    },
                is_ascii_text(ident@) ==> forall|k: int| 0 <= k < wv.len() ==> plain_word(#[trigger] wv[k]),
                is_ascii_text(ident@) ==> forall|j: int|
                    0 <= j < i ==> #[trigger] mapped@[j]@ == match self {
                        RenameAll::Lower | RenameAll::Snake | RenameAll::Kebab => ascii_lower(wv[j]),
                        RenameAll::Upper | RenameAll::ScreamingSnake
                        | RenameAll::ScreamingKebab => ascii_upper(wv[j]),
                        RenameAll::Pascal => ascii_capitalized(wv[j]),
                        RenameAll::Camel => if j == 0 {
                            ascii_lower(wv[j])
                        } else {
                            ascii_capitalized(wv[j])
                        },
                    },
            decreases ws@.len() - i,
        {
            let w = ws[i].as_str();
            proof {
                if is_ascii_text(ident@) {
                    assert(plain_word(wv[i as int]));
                    assert(w@ == wv[i as int]);
                    assert(is_ascii_text(w@));
                }
            }
            let m = match self {
                RenameAll::Lower | RenameAll::Snake | RenameAll::Kebab => to_lowercase(w),
                RenameAll::Upper | RenameAll::ScreamingSnake | RenameAll::ScreamingKebab => {
                    to_uppercase(w)
                },
                RenameAll::Pascal => capitalize(w),
                RenameAll::Camel => if i == 0 {
                    to_lowercase(w)
                } else {
                    capitalize(w)
                },
            };
            mapped.push(m);
            i = i + 1;
        }
        let ghost mv = strings_view(mapped@);
        proof {
            reveal_strlit("");
        }
        let sep = match self {
            RenameAll::Snake | RenameAll::ScreamingSnake => "_",
            RenameAll::Kebab | RenameAll::ScreamingKebab => "-",
            _ => "",
        };
        proof {
            match self {
                RenameAll::Lower | RenameAll::Snake | RenameAll::Kebab => {
                    assert(mv =~= lower_words(wv));
                },
                RenameAll::Upper | RenameAll::ScreamingSnake | RenameAll::ScreamingKebab => {
                    assert(mv =~= upper_words(wv));
                },
                RenameAll::Pascal => {
                    assert(mv =~= capitalized_words(wv, false));
                },
                RenameAll::Camel => {
                    assert(mv =~= capitalized_words(wv, true));
                },
            }
            if is_ascii_text(ident@) {
                match self {
                    RenameAll::Lower | RenameAll::Snake | RenameAll::Kebab => {
                        assert(mv =~= ascii_lower_words(wv));
                    },
                    RenameAll::Upper | RenameAll::ScreamingSnake | RenameAll::ScreamingKebab => {
                        assert(mv =~= ascii_upper_words(wv));
                    },
                    RenameAll::Pascal => {
                        assert(mv =~= Seq::new(wv.len(), |i: int| ascii_capitalized(wv[i])));
                    },
                    RenameAll::Camel => {
                        assert(mv =~= Seq::new(
                            wv.len(),
                            |i: int|
                                if i == 0 {
                                    ascii_lower(wv[i])
                                } else {
                                    ascii_capitalized(wv[i])
                                },
                        ));
                    },
                }
            }
            assert(""@ =~= Seq::<char>::empty());
        }
        join_strings(&mapped, sep)
    }
}


/// The separated case conventions are one list of words joined in
/// different ways: snake, kebab and lowercase join the same lowercased
/// words with `_`, `-` and nothing; screaming snake, screaming kebab and
/// uppercase join the same uppercased words likewise.
pub proof fn lemma_conventions_share_words(ident: Seq<char>)
    ensures
        apply_case(RenameAll::Snake, ident) == join(lower_words(words(ident)), "_"@),
        apply_case(RenameAll::Kebab, ident) == join(lower_words(words(ident)), "-"@),
        apply_case(RenameAll::Lower, ident) == join(lower_words(words(ident)), Seq::empty()),
        apply_case(RenameAll::ScreamingSnake, ident) == join(upper_words(words(ident)), "_"@),
        apply_case(RenameAll::ScreamingKebab, ident) == join(upper_words(words(ident)), "-"@),
        apply_case(RenameAll::Upper, ident) == join(upper_words(words(ident)), Seq::empty()),
{
}

/// A string with every `a` replaced by `b`.
pub open spec fn replace_char(s: Seq<char>, a: char, b: char) -> Seq<char> {
    Seq::new(s.len(), |i: int| if s[i] == a { b } else { s[i] })
}

/// A string with every `a` removed.
pub open spec fn remove_char(s: Seq<char>, a: char) -> Seq<char>
    decreases s.len(),
{
    if s.len() == 0 {
        Seq::empty()
    } else {
        remove_char(s.drop_last(), a) + if s.last() == a {
            Seq::empty()
        } else {
            seq![s.last()]
        }
    }
}

proof fn lemma_remove_concat(x: Seq<char>, y: Seq<char>, a: char)
    ensures
        remove_char(x + y, a) == remove_char(x, a) + remove_char(y, a),
    decreases y.len(),
{
    if y.len() == 0 {
        assert(x + y =~= x);
        assert(remove_char(x, a) + remove_char(y, a) =~= remove_char(x, a));
    } else {
        lemma_remove_concat(x, y.drop_last(), a);
        assert((x + y).drop_last() =~= x + y.drop_last());
        assert((x + y).last() == y.last());
    }
}

proof fn lemma_remove_absent(w: Seq<char>, a: char)
    requires
        forall|j: int| 0 <= j < w.len() ==> #[trigger] w[j] != a,
    ensures
        remove_char(w, a) == w,
    decreases w.len(),
{
    if w.len() > 0 {
        lemma_remove_absent(w.drop_last(), a);
        assert(w.drop_last() + seq![w.last()] =~= w);
    }
}

/// A lower-cased word of an ASCII identifier holds no underscore, and
/// upper-casing it gives the word upper-cased.
proof fn lemma_plain_word_cases(w: Seq<char>)
    requires
        plain_word(w),
    ensures
        forall|j: int| 0 <= j < w.len() ==> #[trigger] ascii_lower(w)[j] != '_',
        ascii_upper(ascii_lower(w)) == ascii_upper(w),
        replace_char(ascii_lower(w), '_', '-') == ascii_lower(w),
        remove_char(ascii_lower(w), '_') == ascii_lower(w),
{
    assert forall|j: int| 0 <= j < w.len() implies #[trigger] ascii_lower(w)[j] != '_' by {
        let c = w[j];
        assert(c != '_');
        if 'A' <= c && c <= 'Z' {
            assert(((c as u32) + 32) as char != '_');
        }
    }
    assert forall|j: int| 0 <= j < w.len() implies #[trigger] ascii_upper(ascii_lower(w))[j] == ascii_upper(w)[j] by {
        let c = w[j];
        if 'A' <= c && c <= 'Z' {
            let l = ((c as u32) + 32) as char;
            assert('a' <= l && l <= 'z');
            assert(((l as u32) - 32) as char == c);
        }
    }
    assert(ascii_upper(ascii_lower(w)) =~= ascii_upper(w));
    assert(replace_char(ascii_lower(w), '_', '-') =~= ascii_lower(w));
    lemma_remove_absent(ascii_lower(w), '_');
}

proof fn lemma_replace_join(ws: Seq<Seq<char>>)
    requires
        forall|k: int| 0 <= k < ws.len() ==> replace_char(#[trigger] ws[k], '_', '-') == ws[k],
    ensures
        replace_char(join(ws, "_"@), '_', '-') == join(ws, "-"@),
    decreases ws.len(),
{
    reveal_strlit("_");
    reveal_strlit("-");
    if ws.len() == 1 {
        assert(replace_char(ws[0], '_', '-') == ws[0]);
    } else if ws.len() > 1 {
        let init = ws.drop_last();
        assert forall|k: int| 0 <= k < init.len() implies replace_char(#[trigger] init[k], '_', '-') == init[k] by {
            assert(init[k] == ws[k]);
        }
        lemma_replace_join(init);
        let a = join(init, "_"@);
        let l = ws.last();
        assert(replace_char(l, '_', '-') == l);
        assert(replace_char(a + "_"@ + l, '_', '-') =~= replace_char(a, '_', '-') + "-"@ + replace_char(l, '_', '-'));
    }
}

proof fn lemma_upper_join(ws: Seq<Seq<char>>, sep: Seq<char>)
    requires
        ascii_upper(sep) == sep,
    ensures
        ascii_upper(join(ws, sep)) == join(ascii_upper_words(ws), sep),
    decreases ws.len(),
{
    if ws.len() == 0 {
        assert(ascii_upper(Seq::empty()) =~= Seq::<char>::empty());
    } else if ws.len() == 1 {
    } else {
        let init = ws.drop_last();
        lemma_upper_join(init, sep);
        assert(ascii_upper_words(ws).drop_last() =~= ascii_upper_words(init));
        let a = join(init, sep);
        assert(ascii_upper(a + sep + ws.last()) =~= ascii_upper(a) + ascii_upper(sep) + ascii_upper(ws.last()));
    }
}

proof fn lemma_remove_join(ws: Seq<Seq<char>>)
    requires
        forall|k: int| 0 <= k < ws.len() ==> remove_char(#[trigger] ws[k], '_') == ws[k],
    ensures
        remove_char(join(ws, "_"@), '_') == join(ws, Seq::empty()),
    decreases ws.len(),
{
    reveal_strlit("_");
    if ws.len() == 0 {
    } else if ws.len() == 1 {
        assert(remove_char(ws[0], '_') == ws[0]);
    } else {
        let init = ws.drop_last();
        assert forall|k: int| 0 <= k < init.len() implies remove_char(#[trigger] init[k], '_') == init[k] by {
            assert(init[k] == ws[k]);
        }
        lemma_remove_join(init);
        let a = join(init, "_"@);
        let l = ws.last();
        assert(remove_char(l, '_') == l);
        lemma_remove_concat(a + "_"@, l, '_');
        lemma_remove_concat(a, "_"@, '_');
        assert("_"@.drop_last() =~= Seq::<char>::empty());
        assert("_"@.last() == '_');
        assert(remove_char(Seq::<char>::empty(), '_') == Seq::<char>::empty());
        assert(remove_char("_"@, '_') =~= Seq::<char>::empty());
        assert(join(init, Seq::empty()) + Seq::empty() + l =~= join(init, Seq::empty()) + l);
    }
}

/// On an ASCII identifier the separated conventions follow from snake
/// case: kebab case is snake case with `-` for `_`; lowercase is snake
/// case without its `_`; the screaming conventions and uppercase are
/// snake case, kebab case and lowercase with their letters upper-cased.
pub proof fn lemma_ascii_conventions(ident: Seq<char>)
    requires
        is_ascii_text(ident),
    ensures
        ascii_case(RenameAll::Kebab, ident) == replace_char(ascii_case(RenameAll::Snake, ident), '_', '-'),
        ascii_case(RenameAll::Lower, ident) == remove_char(ascii_case(RenameAll::Snake, ident), '_'),
        ascii_case(RenameAll::ScreamingSnake, ident) == ascii_upper(ascii_case(RenameAll::Snake, ident)),
        ascii_case(RenameAll::ScreamingKebab, ident) == ascii_upper(ascii_case(RenameAll::Kebab, ident)),
        ascii_case(RenameAll::Upper, ident) == ascii_upper(ascii_case(RenameAll::Lower, ident)),
{
    reveal_strlit("_");
    reveal_strlit("-");
    let ws = words(ident);
    lemma_words_plain(ident);
    let lw = ascii_lower_words(ws);
    assert forall|k: int| 0 <= k < lw.len() implies replace_char(#[trigger] lw[k], '_', '-') == lw[k] && remove_char(lw[k], '_') == lw[k] by {
        lemma_plain_word_cases(ws[k]);
    }
    lemma_replace_join(lw);
    lemma_remove_join(lw);
    assert(ascii_upper("_"@) =~= "_"@);
    assert(ascii_upper("-"@) =~= "-"@);
    assert(ascii_upper(Seq::<char>::empty()) =~= Seq::<char>::empty());
    lemma_upper_join(lw, "_"@);
    lemma_upper_join(lw, "-"@);
    lemma_upper_join(lw, Seq::empty());
    assert forall|k: int| 0 <= k < ws.len() implies #[trigger] ascii_upper_words(lw)[k] == ascii_upper_words(ws)[k] by {
        lemma_plain_word_cases(ws[k]);
    }
    assert(ascii_upper_words(lw) =~= ascii_upper_words(ws));
}

} // verus!

verus! {

proof fn lemma_ascii_char_cases(c: char)
    ensures
        ascii_char_lower(ascii_char_lower(c)) == ascii_char_lower(c),
        ascii_char_lower(ascii_char_upper(c)) == ascii_char_lower(c),
        ascii_char_upper(ascii_char_upper(c)) == ascii_char_upper(c),
{
    if 'A' <= c && c <= 'Z' {
        let l = ((c as u32) + 32) as char;
        assert('a' <= l && l <= 'z');
        assert(!('A' <= l && l <= 'Z'));
        assert(!('a' <= c && c <= 'z'));
    } else if 'a' <= c && c <= 'z' {
        let u = ((c as u32) - 32) as char;
        assert('A' <= u && u <= 'Z');
        assert(((u as u32) + 32) as char == c);
        assert(!('a' <= u && u <= 'z'));
    }
}

/// A capitalized word is the word with its first character in upper case
/// and every other character in lower case: it has the word's length and
/// letters (up to case), its first character is upper-cased, and the rest
/// holds no upper-case letter.
pub proof fn lemma_ascii_capitalized(w: Seq<char>)
    ensures
        ascii_capitalized(w).len() == w.len(),
        ascii_lower(ascii_capitalized(w)) == ascii_lower(w),
        w.len() > 0 ==> ascii_capitalized(w)[0] == ascii_char_upper(w[0]),
        w.len() > 0 ==> ascii_lower(ascii_capitalized(w).drop_first()) == ascii_capitalized(w).drop_first(),
{
    let c = ascii_capitalized(w);
    if w.len() > 0 {
        assert forall|i: int| 0 <= i < w.len() implies #[trigger] ascii_lower(c)[i] == ascii_lower(w)[i] by {
            if i == 0 {
                lemma_ascii_char_cases(w[0]);
            } else {
                assert(c[i] == ascii_char_lower(w[i]));
                lemma_ascii_char_cases(w[i]);
            }
        }
        assert forall|i: int| 0 <= i < c.drop_first().len() implies #[trigger] ascii_lower(c.drop_first())[i]
            == c.drop_first()[i] by {
            assert(c.drop_first()[i] == ascii_char_lower(w[i + 1]));
            lemma_ascii_char_cases(w[i + 1]);
        }
        assert(ascii_lower(c.drop_first()) =~= c.drop_first());
    }
    assert(ascii_lower(c) =~= ascii_lower(w));
}

/// An ASCII word in `PascalCase`: its first character upper-cased, the
/// rest lower-cased.
pub open spec fn pascal_word(w: Seq<char>) -> Seq<char> {
    if w.len() == 0 {
        Seq::empty()
    } else {
        ascii_upper(w.take(1)) + ascii_lower(w.skip(1))
    }
}

proof fn lemma_pascal_word(w: Seq<char>)
    ensures
        ascii_capitalized(w) == pascal_word(w),
{
    if w.len() > 0 {
        assert(ascii_upper(w.take(1)) =~= seq![ascii_char_upper(w[0])]);
        assert(w.skip(1) =~= w.drop_first());
        assert(ascii_capitalized(w) =~= pascal_word(w));
    }
}

/// `PascalCase` joins the words, each with its first character in upper
/// case and the rest in lower case; `camelCase` does the same but keeps
/// the first word wholly in lower case.
pub proof fn lemma_pascal_and_camel(ws: Seq<Seq<char>>)
    ensures
        ascii_joined(RenameAll::Pascal, ws) == join(Seq::new(ws.len(), |i: int| pascal_word(ws[i])), Seq::empty()),
        ascii_joined(RenameAll::Camel, ws) == join(
            Seq::new(
                ws.len(),
                |i: int|
                    if i == 0 {
                        ascii_lower(ws[i])
                    } else {
                        pascal_word(ws[i])
                    },
            ),
            Seq::empty(),
        ),
{
    assert forall|i: int| 0 <= i < ws.len() implies ascii_capitalized(#[trigger] ws[i]) == pascal_word(ws[i]) by {
        lemma_pascal_word(ws[i]);
    }
    assert(Seq::new(ws.len(), |i: int| ascii_capitalized(ws[i])) =~= Seq::new(ws.len(), |i: int| pascal_word(ws[i])));
    assert(Seq::new(
        ws.len(),
        |i: int|
            if i == 0 {
                ascii_lower(ws[i])
            } else {
                ascii_capitalized(ws[i])
            },
    ) =~= Seq::new(
        ws.len(),
        |i: int|
            if i == 0 {
                ascii_lower(ws[i])
            } else {
                pascal_word(ws[i])
            },
    ));
}

proof fn lemma_lower_join(ws: Seq<Seq<char>>, sep: Seq<char>)
    requires
        ascii_lower(sep) == sep,
    ensures
        ascii_lower(join(ws, sep)) == join(ascii_lower_words(ws), sep),
    decreases ws.len(),
{
    if ws.len() == 0 {
        assert(ascii_lower(Seq::empty()) =~= Seq::<char>::empty());
    } else if ws.len() == 1 {
    } else {
        let init = ws.drop_last();
        lemma_lower_join(init, sep);
        assert(ascii_lower_words(ws).drop_last() =~= ascii_lower_words(init));
        let a = join(init, sep);
        assert(ascii_lower(a + sep + ws.last()) =~= ascii_lower(a) + ascii_lower(sep) + ascii_lower(ws.last()));
    }
}

proof fn lemma_lower_idempotent(w: Seq<char>)
    ensures
        ascii_lower(ascii_lower(w)) == ascii_lower(w),
        ascii_upper(ascii_upper(w)) == ascii_upper(w),
{
    assert forall|i: int| 0 <= i < w.len() implies #[trigger] ascii_lower(ascii_lower(w))[i] == ascii_lower(w)[i] && ascii_upper(ascii_upper(w))[i] == ascii_upper(w)[i] by {
        lemma_ascii_char_cases(w[i]);
    }
    assert(ascii_lower(ascii_lower(w)) =~= ascii_lower(w));
    assert(ascii_upper(ascii_upper(w)) =~= ascii_upper(w));
}

/// The lower-case conventions hold no upper-case ASCII letter and the
/// upper-case ones no lower-case letter; `PascalCase` and `camelCase` are
/// `lowercase` with some letters raised: lower-casing them gives
/// `lowercase`.
pub proof fn lemma_convention_cases(ws: Seq<Seq<char>>)
    ensures
        ascii_lower(ascii_joined(RenameAll::Snake, ws)) == ascii_joined(RenameAll::Snake, ws),
        ascii_lower(ascii_joined(RenameAll::Kebab, ws)) == ascii_joined(RenameAll::Kebab, ws),
        ascii_lower(ascii_joined(RenameAll::Lower, ws)) == ascii_joined(RenameAll::Lower, ws),
        ascii_upper(ascii_joined(RenameAll::ScreamingSnake, ws)) == ascii_joined(RenameAll::ScreamingSnake, ws),
        ascii_upper(ascii_joined(RenameAll::ScreamingKebab, ws)) == ascii_joined(RenameAll::ScreamingKebab, ws),
        ascii_upper(ascii_joined(RenameAll::Upper, ws)) == ascii_joined(RenameAll::Upper, ws),
        ascii_lower(ascii_joined(RenameAll::Pascal, ws)) == ascii_joined(RenameAll::Lower, ws),
        ascii_lower(ascii_joined(RenameAll::Camel, ws)) == ascii_joined(RenameAll::Lower, ws),
{
    reveal_strlit("_");
    reveal_strlit("-");
    assert(ascii_lower("_"@) =~= "_"@);
    assert(ascii_lower("-"@) =~= "-"@);
    assert(ascii_lower(Seq::<char>::empty()) =~= Seq::<char>::empty());
    assert(ascii_upper("_"@) =~= "_"@);
    assert(ascii_upper("-"@) =~= "-"@);
    assert(ascii_upper(Seq::<char>::empty()) =~= Seq::<char>::empty());
    let lw = ascii_lower_words(ws);
    let uw = ascii_upper_words(ws);
    assert forall|k: int| 0 <= k < ws.len() implies #[trigger] ascii_lower_words(lw)[k] == lw[k] by {
        lemma_lower_idempotent(ws[k]);
    }
    assert forall|k: int| 0 <= k < ws.len() implies #[trigger] ascii_upper_words(uw)[k] == uw[k] by {
        lemma_lower_idempotent(ws[k]);
    }
    assert(ascii_lower_words(lw) =~= lw);
    assert(ascii_upper_words(uw) =~= uw);
    lemma_lower_join(lw, "_"@);
    lemma_lower_join(lw, "-"@);
    lemma_lower_join(lw, Seq::empty());
    lemma_upper_join(uw, "_"@);
    lemma_upper_join(uw, "-"@);
    lemma_upper_join(uw, Seq::empty());
    let pw = Seq::new(ws.len(), |i: int| ascii_capitalized(ws[i]));
    let cw = Seq::new(ws.len(), |i: int| if i == 0 { ascii_lower(ws[i]) } else { ascii_capitalized(ws[i]) });
    assert forall|k: int| 0 <= k < ws.len() implies #[trigger] ascii_lower_words(pw)[k] == lw[k] by {
        lemma_ascii_capitalized(ws[k]);
    }
    assert forall|k: int| 0 <= k < ws.len() implies #[trigger] ascii_lower_words(cw)[k] == lw[k] by {
        lemma_ascii_capitalized(ws[k]);
        lemma_lower_idempotent(ws[k]);
    }
    assert(ascii_lower_words(pw) =~= lw);
    assert(ascii_lower_words(cw) =~= lw);
    lemma_lower_join(pw, Seq::empty());
    lemma_lower_join(cw, Seq::empty());
}

proof fn lemma_join_push(ws: Seq<Seq<char>>, x: Seq<char>)
    ensures
        join(ws.push(x), Seq::empty()) == join(ws, Seq::empty()) + x,
{
    if ws.len() == 0 {
        assert(ws.push(x) =~= seq![x]);
        assert(Seq::<char>::empty() + x =~= x);
    } else {
        assert(ws.push(x).drop_last() =~= ws);
        assert(join(ws, Seq::empty()) + Seq::empty() + x =~= join(ws, Seq::empty()) + x);
    }
}

proof fn lemma_remove_step(cs: Seq<char>, n: int)
    requires
        0 <= n < cs.len(),
    ensures
        remove_char(cs.take(n + 1), '_') == remove_char(cs.take(n), '_') + if cs[n] == '_' {
            Seq::<char>::empty()
        } else {
            seq![cs[n]]
        },
{
    assert(cs.take(n + 1).drop_last() =~= cs.take(n));
    assert(cs.take(n + 1).last() == cs[n]);
}

proof fn lemma_underscore_scan_chars(cs: Seq<char>, n: nat)
    requires
        n <= cs.len(),
    ensures
        join(underscore_scan(cs, n).0, Seq::empty()) + underscore_scan(cs, n).1 == remove_char(cs.take(n as int), '_'),
    decreases n,
{
    if n == 0 {
        assert(cs.take(0) =~= Seq::<char>::empty());
        assert(Seq::<char>::empty() + Seq::<char>::empty() =~= Seq::<char>::empty());
    } else {
        lemma_underscore_scan_chars(cs, (n - 1) as nat);
        lemma_remove_step(cs, n - 1);
        let (ws, cur) = underscore_scan(cs, (n - 1) as nat);
        let c = cs[n - 1];
        if c == '_' {
            if cur.len() > 0 {
                lemma_join_push(ws, cur);
            }
            assert(join(underscore_scan(cs, n).0, Seq::empty()) + Seq::<char>::empty() =~= join(ws, Seq::empty()) + cur);
        } else {
            assert(join(ws, Seq::empty()) + cur.push(c) =~= join(ws, Seq::empty()) + cur + seq![c]);
        }
    }
}

proof fn lemma_ascii_case_scan_chars(cs: Seq<char>, n: nat)
    requires
        n <= cs.len(),
        !cs.contains('_'),
    ensures
        join(ascii_case_scan(cs, n).0, Seq::empty()) + ascii_case_scan(cs, n).1 == remove_char(cs.take(n as int), '_'),
    decreases n,
{
    if n == 0 {
        assert(cs.take(0) =~= Seq::<char>::empty());
        assert(Seq::<char>::empty() + Seq::<char>::empty() =~= Seq::<char>::empty());
    } else {
        lemma_ascii_case_scan_chars(cs, (n - 1) as nat);
        lemma_remove_step(cs, n - 1);
        let (ws, cur) = ascii_case_scan(cs, (n - 1) as nat);
        let c = cs[n - 1];
        assert(c != '_') by {
            if c == '_' {
                assert(cs.contains('_'));
            }
        }
        if ascii_boundary(cs, n - 1) && cur.len() > 0 {
            lemma_join_push(ws, cur);
            assert(join(ws, Seq::empty()) + cur + seq![c] =~= join(ws, Seq::empty()) + (cur + seq![c]));
        } else {
            assert(join(ws, Seq::empty()) + cur.push(c) =~= join(ws, Seq::empty()) + cur + seq![c]);
        }
    }
}

proof fn lemma_close_words_chars(scan: (Seq<Seq<char>>, Seq<char>))
    ensures
        join(close_words(scan), Seq::empty()) == join(scan.0, Seq::empty()) + scan.1,
{
    if scan.1.len() > 0 {
        lemma_join_push(scan.0, scan.1);
    } else {
        assert(join(scan.0, Seq::empty()) + scan.1 =~= join(scan.0, Seq::empty()));
    }
}

/// Splitting an ASCII identifier into words keeps its characters: the
/// words, put back together, are the identifier without its underscores.
pub proof fn lemma_ascii_words_keep_chars(cs: Seq<char>)
    ensures
        join(ascii_words(cs), Seq::empty()) == remove_char(cs, '_'),
{
    assert(cs.take(cs.len() as int) =~= cs);
    if cs.contains('_') {
        lemma_underscore_scan_chars(cs, cs.len());
        lemma_close_words_chars(underscore_scan(cs, cs.len()));
    } else {
        lemma_ascii_case_scan_chars(cs, cs.len());
        lemma_close_words_chars(ascii_case_scan(cs, cs.len()));
    }
}

/// The characters of an identifier in a case convention: `lowercase` is
/// the identifier without underscores in lower case, `UPPERCASE` the same
/// in upper case, and `PascalCase` and `camelCase` are the same letters up
/// to case.
pub proof fn lemma_convention_letters(ident: Seq<char>)
    ensures
        ascii_joined(RenameAll::Lower, ascii_words(ident)) == ascii_lower(remove_char(ident, '_')),
        ascii_joined(RenameAll::Upper, ascii_words(ident)) == ascii_upper(remove_char(ident, '_')),
        ascii_lower(ascii_joined(RenameAll::Pascal, ascii_words(ident))) == ascii_lower(remove_char(ident, '_')),
        ascii_lower(ascii_joined(RenameAll::Camel, ascii_words(ident))) == ascii_lower(remove_char(ident, '_')),
{
    let ws = ascii_words(ident);
    lemma_ascii_words_keep_chars(ident);
    assert(ascii_lower(Seq::<char>::empty()) =~= Seq::<char>::empty());
    assert(ascii_upper(Seq::<char>::empty()) =~= Seq::<char>::empty());
    lemma_lower_join(ws, Seq::empty());
    lemma_upper_join(ws, Seq::empty());
    lemma_convention_cases(ws);
}

/// The name serde gives a case convention in `rename_all`.
pub open spec fn convention_name(c: RenameAll) -> Seq<char> {
    match c {
        RenameAll::Lower => "lowercase"@,
        RenameAll::Upper => "UPPERCASE"@,
        RenameAll::Pascal => "PascalCase"@,
        RenameAll::Camel => "camelCase"@,
        RenameAll::Snake => "snake_case"@,
        RenameAll::ScreamingSnake => "SCREAMING_SNAKE_CASE"@,
        RenameAll::Kebab => "kebab-case"@,
        RenameAll::ScreamingKebab => "SCREAMING-KEBAB-CASE"@,
    }
}

/// A `rename_all` value names a convention exactly when it is that
/// convention's serde name.
pub proof fn lemma_parse_rename_all(c: RenameAll, s: Seq<char>)
    ensures
        parse_rename_all(convention_name(c)) == Some(c),
        parse_rename_all(s) == Some(c) ==> s == convention_name(c),
{
    reveal_strlit("lowercase");
    reveal_strlit("UPPERCASE");
    reveal_strlit("PascalCase");
    reveal_strlit("camelCase");
    reveal_strlit("snake_case");
    reveal_strlit("SCREAMING_SNAKE_CASE");
    reveal_strlit("kebab-case");
    reveal_strlit("SCREAMING-KEBAB-CASE");
    let n = convention_name(c);
    if c != RenameAll::Lower {
        assert(n != "lowercase"@) by {
            if n.len() == 9 {
                assert(n[0] != "lowercase"@[0]);
            }
        }
    }
    if c != RenameAll::Upper {
        assert(n != "UPPERCASE"@) by {
            if n.len() == 9 {
                assert(n[0] != "UPPERCASE"@[0]);
            }
        }
    }
    if c != RenameAll::Pascal {
        assert(n != "PascalCase"@) by {
            if n.len() == 10 {
                assert(n[0] != "PascalCase"@[0]);
            }
        }
    }
    if c != RenameAll::Camel {
        assert(n != "camelCase"@) by {
            if n.len() == 9 {
                assert(n[0] != "camelCase"@[0]);
            }
        }
    }
    if c != RenameAll::Snake {
        assert(n != "snake_case"@) by {
            if n.len() == 10 {
                assert(n[0] != "snake_case"@[0]);
            }
        }
    }
    if c != RenameAll::ScreamingSnake {
        assert(n != "SCREAMING_SNAKE_CASE"@) by {
            if n.len() == 20 {
                assert(n[9] != "SCREAMING_SNAKE_CASE"@[9]);
            }
        }
    }
    if c != RenameAll::Kebab {
        assert(n != "kebab-case"@) by {
            if n.len() == 10 {
                assert(n[0] != "kebab-case"@[0]);
            }
        }
    }
}

/// An ASCII upper-case letter.
pub open spec fn is_ascii_upper_letter(c: char) -> bool {
    'A' <= c && c <= 'Z'
}

/// An ASCII lower-case letter.
pub open spec fn is_ascii_lower_letter(c: char) -> bool {
    'a' <= c && c <= 'z'
}

/// A word with no lower-case letter followed by an upper-case one.
pub open spec fn no_hump(w: Seq<char>) -> bool {
    forall|j: int| 0 <= j < w.len() - 1 ==> !(is_ascii_lower_letter(#[trigger] w[j]) && is_ascii_upper_letter(w[j + 1]))
}

/// A word where no upper-case letter but the first is followed by a
/// lower-case one (an acronym ends before the word it starts).
pub open spec fn no_inner_cap(w: Seq<char>) -> bool {
    forall|j: int| 0 < j < w.len() - 1 ==> !(is_ascii_upper_letter(#[trigger] w[j]) && is_ascii_lower_letter(w[j + 1]))
}

/// The words of a camel- or Pascal-case scan so far.
pub open spec fn camel_words_ok(ws: Seq<Seq<char>>, cur: Seq<char>) -> bool {
    &&& forall|k: int| 0 <= k < ws.len() ==> (#[trigger] ws[k]).len() > 0 && no_hump(ws[k]) && no_inner_cap(ws[k])
    &&& forall|k: int| 0 < k < ws.len() ==> is_ascii_upper_letter((#[trigger] ws[k])[0])
    &&& (ws.len() > 0 ==> cur.len() > 0 && is_ascii_upper_letter(cur[0]))
    &&& no_hump(cur)
    &&& no_inner_cap(cur)
}

proof fn lemma_ascii_case_scan_shape(cs: Seq<char>, n: nat)
    requires
        n <= cs.len(),
    ensures
        camel_words_ok(ascii_case_scan(cs, n).0, ascii_case_scan(cs, n).1),
        ascii_case_scan(cs, n).1.len() > 0 ==> ascii_case_scan(cs, n).1.last() == cs[n - 1],
        n > 0 ==> ascii_case_scan(cs, n).1.len() > 0,
        ascii_case_scan(cs, n).1.len() >= 2 ==> !ascii_boundary(cs, n - 1),
        ascii_case_scan(cs, n).1.len() <= n,
    decreases n,
{
    if n > 0 {
        lemma_ascii_case_scan_shape(cs, (n - 1) as nat);
        let (ws, cur) = ascii_case_scan(cs, (n - 1) as nat);
        let c = cs[n - 1];
        if ascii_boundary(cs, n - 1) && cur.len() > 0 {
            let nws = ws.push(cur);
            assert forall|k: int| 0 <= k < nws.len() implies (#[trigger] nws[k]).len() > 0 && no_hump(nws[k]) && no_inner_cap(nws[k]) by {
                if k < ws.len() {
                    assert(nws[k] == ws[k]);
                }
            }
            assert forall|k: int| 0 < k < nws.len() implies is_ascii_upper_letter((#[trigger] nws[k])[0]) by {
                if k < ws.len() {
                    assert(nws[k] == ws[k]);
                }
            }
            assert(is_ascii_upper_letter(c));
            assert(seq![c][0] == c);
        } else {
            let ncur = cur.push(c);
            assert forall|j: int| 0 <= j < ncur.len() - 1 implies !(is_ascii_lower_letter(#[trigger] ncur[j])
                && is_ascii_upper_letter(ncur[j + 1])) by {
                if j < cur.len() - 1 {
                    assert(ncur[j] == cur[j] && ncur[j + 1] == cur[j + 1]);
                } else {
                    assert(ncur[j] == cur.last());
                    assert(cur.last() == cs[n - 2]);
                    if is_ascii_lower_letter(ncur[j]) && is_ascii_upper_letter(c) {
                        assert(ascii_boundary(cs, n - 1));
                    }
                }
            }
            assert forall|j: int| 0 < j < ncur.len() - 1 implies !(is_ascii_upper_letter(#[trigger] ncur[j])
                && is_ascii_lower_letter(ncur[j + 1])) by {
                if j < cur.len() - 1 {
                    assert(ncur[j] == cur[j] && ncur[j + 1] == cur[j + 1]);
                } else {
                    assert(ncur[j] == cur.last());
                    assert(cur.last() == cs[n - 2]);
                    assert(cur.len() >= 2);
                    assert(!ascii_boundary(cs, n - 2));
                    assert(ncur[j + 1] == c);
                    assert(0 < n - 2);
                }
            }
            if cur.len() > 0 {
                assert(ncur[0] == cur[0]);
            }
        }
    }
}

/// The words of an ASCII identifier without underscores: none is empty,
/// every word after the first starts with an upper-case letter, no word
/// holds a lower-case letter followed by an upper-case one (there a new
/// word starts), and no upper-case letter but a word's first is followed
/// by a lower-case one (an acronym ends before the word it starts).
pub proof fn lemma_camel_words(cs: Seq<char>)
    requires
        !cs.contains('_'),
    ensures
        forall|k: int| 0 <= k < ascii_words(cs).len() ==> (#[trigger] ascii_words(cs)[k]).len() > 0 && no_hump(ascii_words(cs)[k])
            && no_inner_cap(ascii_words(cs)[k]),
        forall|k: int| 0 < k < ascii_words(cs).len() ==> is_ascii_upper_letter((#[trigger] ascii_words(cs)[k])[0]),
{
    lemma_ascii_case_scan_shape(cs, cs.len());
    let (ws, cur) = ascii_case_scan(cs, cs.len());
    if cur.len() > 0 {
        let w = ws.push(cur);
        assert forall|k: int| 0 <= k < w.len() implies (#[trigger] w[k]).len() > 0 && no_hump(w[k]) && no_inner_cap(w[k]) by {
            if k < ws.len() {
                assert(w[k] == ws[k]);
            }
        }
        assert forall|k: int| 0 < k < w.len() implies is_ascii_upper_letter((#[trigger] w[k])[0]) by {
            if k < ws.len() {
                assert(w[k] == ws[k]);
            }
        }
    }
}

} // verus!
