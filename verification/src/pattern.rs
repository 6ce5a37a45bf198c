//! Text helpers for reading Godot types written inside TOML strings: the
//! trimming of white space, and the scan of a text for the tokens that the
//! type pattern matches, with the regular expressions of `fancy_regex`.

use vstd::prelude::*;
use vstd::string::StringExecFns;
use vstd::utf8::encode_utf8;
use fancy_regex::{Error, Regex};

verus! {

broadcast use vstd::string::group_string_axioms;

#[verifier::external_type_specification]
#[verifier::external_body]
pub struct ExRegex(Regex);

#[verifier::external_type_specification]
#[verifier::external_body]
pub struct ExRegexError(Error);

/// The pattern of a token in a Godot type's text: a run of ASCII letters,
/// digits and dots, with an optional slash before it.
pub const GODOT_TYPE_PATTERN: &'static str = "((?:\\/)?([a-zA-Z0-9\\.]+))";

/// Whether `c` has the Unicode `White_Space` property, as `char::is_whitespace`
/// reports: tab, line feed, vertical tab, form feed, carriage return, space,
/// next line, no-break space, ogham space mark, the spaces from en quad to
/// hair space, line separator, paragraph separator, narrow no-break space,
/// medium mathematical space and ideographic space.
pub open spec fn is_white_space(c: char) -> bool {
    let u = c as u32;
    ||| 0x9 <= u <= 0xD
    ||| u == 0x20
    ||| u == 0x85
    ||| u == 0xA0
    ||| u == 0x1680
    ||| 0x2000 <= u <= 0x200A
    ||| u == 0x2028
    ||| u == 0x2029
    ||| u == 0x202F
    ||| u == 0x205F
    ||| u == 0x3000
}

/// The text without its leading white space.
pub open spec fn trimmed_start(s: Seq<char>) -> Seq<char>
    decreases s.len(),
{
    if s.len() > 0 && is_white_space(s[0]) {
        trimmed_start(s.drop_first())
    } else {
        s
    }
}

/// The text without its trailing white space.
pub open spec fn trimmed_end(s: Seq<char>) -> Seq<char>
    decreases s.len(),
{
    if s.len() > 0 && is_white_space(s.last()) {
        trimmed_end(s.drop_last())
    } else {
        s
    }
}

/// The text without its leading and trailing white space.
pub open spec fn trimmed(s: Seq<char>) -> Seq<char> {
    trimmed_end(trimmed_start(s))
}

/// Calls `str::trim`, which removes the leading and trailing characters that
/// have the Unicode `White_Space` property (those for which
/// `char::is_whitespace` holds); the contract claims exactly that.
#[verifier::external_body]
fn str_trim(s: &str) -> (res: &str)
    ensures
        res@ == trimmed(s@),
{
    s.trim()
}

/// The text without its leading and trailing white space, as a new string.
pub fn trim_text(s: &str) -> (res: String)
    ensures
        res@ == trimmed(s@),
{
    String::from_str(str_trim(s))
}

/// Whether `fancy_regex::Regex::new` accepts the pattern.
pub uninterp spec fn regex_compiles(pattern: Seq<char>) -> bool;

/// What `captures_from_pos(text, pos)` of the regex compiled from `pattern`
/// gives: `Err(())` for an error; `Ok(None)` when there is no match from byte
/// position `pos` on; otherwise the text of capture group 1 when it took part
/// in the match, and the byte offset where group 0 ends.
pub uninterp spec fn regex_captures_from_pos(pattern: Seq<char>, text: Seq<char>, pos: int) -> Result<
    Option<(Option<Seq<char>>, Option<int>)>,
    (),
>;

/// A byte of the class `[a-zA-Z0-9\.]` of the type pattern.
pub open spec fn is_token_byte(b: u8) -> bool {
    ||| 0x61 <= b <= 0x7A
    ||| 0x41 <= b <= 0x5A
    ||| 0x30 <= b <= 0x39
    ||| b == 0x2E
}

/// Where the run of class bytes that starts at `i` ends.
pub open spec fn token_run_end(bytes: Seq<u8>, i: int) -> int
    decreases bytes.len() - i,
{
    if 0 <= i < bytes.len() && is_token_byte(bytes[i]) {
        token_run_end(bytes, i + 1)
    } else {
        i
    }
}

/// Where a match of the type pattern that starts at `s` ends, if one starts
/// there: a `/` and the longest run of class bytes after it, or else the
/// longest run of class bytes from `s`.
pub open spec fn token_match_at(bytes: Seq<u8>, s: int) -> Option<int> {
    if 0 <= s && s + 1 < bytes.len() && bytes[s] == 0x2F && is_token_byte(bytes[s + 1]) {
        Some(token_run_end(bytes, s + 1))
    } else if 0 <= s < bytes.len() && is_token_byte(bytes[s]) {
        Some(token_run_end(bytes, s))
    } else {
        None
    }
}

/// The leftmost match of the type pattern that starts at or after `s`, by its
/// start and end.
pub open spec fn first_token_match(bytes: Seq<u8>, s: int) -> Option<(int, int)>
    decreases bytes.len() - s,
{
    if s < 0 || s >= bytes.len() {
        None
    } else {
        match token_match_at(bytes, s) {
            Some(end) => Some((s, end)),
            None => first_token_match(bytes, s + 1),
        }
    }
}

/// What a search with the type pattern from byte position `pos` gives: the
/// leftmost match, whose text is group 1 (the whole match), and where it ends.
pub open spec fn token_search(text: Seq<char>, pos: int) -> Result<Option<(Option<Seq<char>>, Option<int>)>, ()> {
    let bytes = encode_utf8(text);
    match first_token_match(bytes, pos) {
        Some((start, end)) => Ok(
            Some((Some(bytes.subrange(start, end).map_values(|b: u8| b as char)), Some(end))),
        ),
        None => Ok(None),
    }
}

/// Calls `fancy_regex::Regex::new`, which succeeds exactly for the patterns
/// that `regex_compiles` names, the type pattern among them (it is plain
/// syntax: a group, an optional escaped `/`, a class and a `+`); of the regex
/// itself nothing is claimed.
#[verifier::external_body]
fn regex_new(pattern: &str) -> (res: Result<Regex, Error>)
    ensures
        res is Ok <==> regex_compiles(pattern@),
        pattern@ == GODOT_TYPE_PATTERN@ ==> res is Ok,
{
    Regex::new(pattern)
}

/// A regular expression together with the pattern it was compiled from.
pub struct CompiledPattern {
    source: String,
    regex: Regex,
}

impl CompiledPattern {
    /// The pattern the regex was compiled from.
    pub closed spec fn source(&self) -> Seq<char> {
        self.source@
    }

    /// Compiles `source`; fails exactly when `fancy_regex` refuses it.
    pub fn new(source: &str) -> (res: Result<CompiledPattern, Error>)
        ensures
            res is Ok <==> regex_compiles(source@),
            source@ == GODOT_TYPE_PATTERN@ ==> res is Ok,
            res matches Ok(p) ==> p.source() == source@,
    {
        match regex_new(source) {
            Ok(regex) => Ok(CompiledPattern { source: String::from_str(source), regex }),
            Err(e) => Err(e),
        }
    }
}

/// The plain value of what `captures_from_pos` gave.
pub open spec fn capture_outcome(res: Result<Option<(Option<String>, Option<usize>)>, Error>) -> Result<
    Option<(Option<Seq<char>>, Option<int>)>,
    (),
> {
    match res {
        Ok(Some((group, end))) => Ok(
            Some(
                (
                    match group {
                        Some(g) => Some(g@),
                        None => None,
                    },
                    match end {
                        Some(e) => Some(e as int),
                        None => None,
                    },
                ),
            ),
        ),
        Ok(None) => Ok(None),
        Err(_) => Err(()),
    }
}

/// Calls `fancy_regex::Regex::captures_from_pos` on the pattern's regex and
/// takes the text of group 1 and the end of group 0 from the captures. The
/// contract claims that this equals `regex_captures_from_pos` of the pattern
/// the regex was compiled from (which `CompiledPattern::new` keeps beside it),
/// and that a match ends within the text (`Match::end` is a byte offset in it).
/// For the type pattern it claims the regex's leftmost-first semantics: the
/// leftmost match from `pos` on, the optional `/` taken when a class byte
/// follows it, and the `+` taking the longest run; the pattern has no feature
/// that can fail at run time, and a position past the end finds no match.
#[verifier::external_body]
fn captures_from_pos(pattern: &CompiledPattern, text: &str, pos: usize) -> (res: Result<
    Option<(Option<String>, Option<usize>)>,
    Error,
>)
    ensures
        capture_outcome(res) == regex_captures_from_pos(pattern.source(), text@, pos as int),
        res matches Ok(Some((_, Some(end)))) ==> end <= encode_utf8(text@).len(),
        pattern.source() == GODOT_TYPE_PATTERN@ ==> capture_outcome(res) == token_search(text@, pos as int),
{
    match pattern.regex.captures_from_pos(text, pos) {
        Ok(Some(caps)) => Ok(Some((caps.get(1).map(|m| m.as_str().to_string()), caps.get(0).map(|m| m.end())))),
        Ok(None) => Ok(None),
        Err(e) => Err(e),
    }
}

/// A match found by `first_token_match` lies at or after the search position,
/// is not empty, and ends within the bytes.
pub proof fn lemma_first_token_match(bytes: Seq<u8>, s: int)
    ensures
        first_token_match(bytes, s) matches Some((start, end)) ==> s <= start < end <= bytes.len(),
    decreases bytes.len() - s,
{
    if 0 <= s < bytes.len() {
        lemma_token_run_end(bytes, s);
        lemma_token_run_end(bytes, s + 1);
        if token_match_at(bytes, s) is None {
            lemma_first_token_match(bytes, s + 1);
        }
    }
}

/// A run ends at or after its start, within the bytes when it starts within them.
proof fn lemma_token_run_end(bytes: Seq<u8>, i: int)
    ensures
        token_run_end(bytes, i) >= i,
        0 <= i <= bytes.len() ==> token_run_end(bytes, i) <= bytes.len(),
        0 <= i < bytes.len() && is_token_byte(bytes[i]) ==> token_run_end(bytes, i) > i,
    decreases bytes.len() - i,
{
    if 0 <= i < bytes.len() && is_token_byte(bytes[i]) {
        lemma_token_run_end(bytes, i + 1);
    }
}

/// The tokens that repeated searches with the type pattern find from byte
/// position `pos` on, each search starting where the last match ended.
pub open spec fn scan_tokens(text: Seq<char>, pos: int) -> Seq<Seq<char>>
    decreases encode_utf8(text).len() - pos,
{
    let bytes = encode_utf8(text);
    match first_token_match(bytes, pos) {
        Some((start, end)) => if pos < end <= bytes.len() {
            seq![bytes.subrange(start, end).map_values(|b: u8| b as char)] + scan_tokens(text, end)
        } else {
            Seq::empty()
        },
        None => Seq::empty(),
    }
}

/// The tokens of a Godot type's text.
pub open spec fn text_tokens(value: Seq<char>) -> Seq<Seq<char>> {
    scan_tokens(value, 0)
}

/// The texts of a sequence of strings.
pub open spec fn texts(v: Seq<String>) -> Seq<Seq<char>> {
    v.map_values(|s: String| s@)
}

/// Scans `value` for the tokens of a Godot type: group 1 of each match of the
/// type pattern, each search starting where the last match ended.
pub fn godot_type_tokens(value: &str) -> (res: Vec<String>)
    ensures
        text_tokens(value@) == texts(res@),
{
    let mut tokens: Vec<String> = Vec::new();
    let pattern = match CompiledPattern::new(GODOT_TYPE_PATTERN) {
        Ok(p) => p,
        Err(_) => return tokens,
    };
    let ghost byte_len = encode_utf8(value@).len();
    let mut pos: usize = 0;
    loop
        invariant
            pattern.source() == GODOT_TYPE_PATTERN@,
            byte_len == encode_utf8(value@).len(),
            pos <= byte_len,
            text_tokens(value@) == texts(tokens@) + scan_tokens(value@, pos as int),
        decreases byte_len - pos,
    {
        proof {
            lemma_first_token_match(encode_utf8(value@), pos as int);
        }
        match captures_from_pos(&pattern, value, pos) {
            Ok(Some((Some(group), Some(end)))) => {
                let ghost before = tokens@;
                let ghost g = group@;
                tokens.push(group);
                proof {
                    assert(texts(tokens@) =~= texts(before) + seq![g]);
                    let rest = scan_tokens(value@, end as int);
                    assert(texts(before) + (seq![g] + rest) =~= texts(tokens@) + rest);
                }
                pos = end;
            },
            _ => {
                assert(scan_tokens(value@, pos as int) =~= Seq::<Seq<char>>::empty());
                assert(texts(tokens@) + Seq::<Seq<char>>::empty() =~= texts(tokens@));
                return tokens;
            },
        }
    }
}

/// Whether `text` holds the character `c`.
pub fn text_contains(text: &str, c: char) -> (res: bool)
    ensures
        res == text@.contains(c),
{
    let ghost chars = text@;
    for d in it: text.chars()
        invariant
            it.seq() == chars,
            chars == text@,
            forall|j: int| 0 <= j < it.index() ==> chars[j] != c,
    {
        if d == c {
            assert(chars[it.index() as int] == c);
            return true;
        }
    }
    false
}

} // verus!
