//! Hostname patterns. Each pattern stands for an anchored regular
//! expression, which the `regex` crate compiles and runs.

use crate::text::{chars_of, push_str, string_of, string_of_range};
use regex::Regex;
use vstd::prelude::*;

verus! {

/// `regex::Regex`, a compiled expression. Nothing inside it is visible
/// here; what is known of it is said through `regex_source`.
#[verifier::external_type_specification]
#[verifier::external_body]
pub struct ExRegex(regex::Regex);

/// `regex::Error`, the reason why an expression was refused. It is only
/// passed along.
#[verifier::external_type_specification]
#[verifier::external_body]
pub struct ExRegexError(regex::Error);

/// The expression that a compiled `Regex` was built from, which is what
/// `Regex::as_str` hands back.
pub uninterp spec fn regex_source(re: Regex) -> Seq<char>;

/// `Regex::as_str` hands back the expression that the matcher was built
/// from.
pub assume_specification<'a>[ Regex::as_str ](re: &'a Regex) -> (source: &'a str)
    ensures
        source@ == regex_source(*re),
;

/// Whether a `Regex` was compiled by `Regex::new`, that is with the
/// engine's own options and none of a builder's.
pub uninterp spec fn regex_is_plain(re: Regex) -> bool;

/// Whether `Regex::new` accepts the expression `source` on a machine whose
/// words have `word_bits` bits. The engine refuses an expression that it
/// cannot read, and one whose compiled form is larger than its fixed limit;
/// it measures that form in states whose size goes by the width of a
/// pointer, which is why the width is an argument here.
pub uninterp spec fn regex_accepts(source: Seq<char>, word_bits: nat) -> bool;

/// Whether the expression `source`, compiled by `Regex::new`, finds a match
/// somewhere in `haystack`.
pub uninterp spec fn regex_is_match(source: Seq<char>, haystack: Seq<char>) -> bool;

/// `regex::escape` puts a backslash in front of every meta character and
/// leaves the other characters as they are.
pub assume_specification[ regex::escape ](pattern: &str) -> (quoted: String)
    ensures
        quoted@ == escaped(pattern@),
;

/// `Regex::new` either refuses the expression or hands back a matcher that
/// remembers it and was compiled with the engine's own options. Whether it
/// accepts depends on the expression and the machine's word size alone;
/// which expressions those are is not said.
pub assume_specification[ Regex::new ](re: &str) -> (compiled: Result<Regex, regex::Error>)
    ensures
        compiled is Ok == regex_accepts(re@, usize::BITS as nat),
        compiled matches Ok(c) ==> regex_source(c) == re@ && regex_is_plain(c),
;

/// For a matcher that `Regex::new` compiled, `Regex::is_match` depends on
/// the expression and the haystack alone. Of a matcher that a builder made
/// under other options nothing is claimed.
pub assume_specification[ Regex::is_match ](re: &Regex, haystack: &str) -> (found: bool)
    ensures
        regex_is_plain(*re) ==> found == regex_is_match(regex_source(*re), haystack@),
;

/// The characters that carry meaning in a regular expression.
pub open spec fn is_meta_character(c: char) -> bool {
    ||| c == '\\'
    ||| c == '.'
    ||| c == '+'
    ||| c == '*'
    ||| c == '?'
    ||| c == '('
    ||| c == ')'
    ||| c == '|'
    ||| c == '['
    ||| c == ']'
    ||| c == '{'
    ||| c == '}'
    ||| c == '^'
    ||| c == '$'
    ||| c == '#'
    ||| c == '&'
    ||| c == '-'
    ||| c == '~'
}

/// How a single character is written so that an expression takes it
/// literally.
pub open spec fn escaped_char(c: char) -> Seq<char> {
    if is_meta_character(c) {
        seq!['\\', c]
    } else {
        seq![c]
    }
}

/// `text` with every meta character escaped.
pub open spec fn escaped(text: Seq<char>) -> Seq<char>
    decreases text.len(),
{
    if text.len() == 0 {
        Seq::empty()
    } else {
        escaped_char(text[0]) + escaped(text.drop_first())
    }
}

/// The expression for a pattern body: `*` stands for any run of characters,
/// every other character for itself.
pub open spec fn glob_body(pattern: Seq<char>) -> Seq<char>
    decreases pattern.len(),
{
    if pattern.len() == 0 {
        Seq::empty()
    } else {
        let head = if pattern[0] == '*' {
            seq!['.', '*']
        } else {
            escaped_char(pattern[0])
        };
        head + glob_body(pattern.drop_first())
    }
}

/// A pattern of the form `*.suffix`.
pub open spec fn is_subdomain_form(pattern: Seq<char>) -> bool {
    pattern.len() >= 2 && pattern[0] == '*' && pattern[1] == '.'
}

/// The opening of the expression for `*.suffix`: an optional run of
/// characters that ends in a dot.
pub open spec fn subdomain_prefix() -> Seq<char> {
    seq!['^', '(', '.', '*', '\\', '.', ')', '?']
}

/// The anchored expression that a pattern stands for. `*.suffix` matches the
/// suffix itself and everything that ends in `.suffix`; in that form the
/// suffix is taken literally.
pub open spec fn wildcard_regex(pattern: Seq<char>) -> Seq<char> {
    if is_subdomain_form(pattern) {
        subdomain_prefix() + escaped(pattern.skip(2)) + seq!['$']
    } else {
        seq!['^'] + glob_body(pattern) + seq!['$']
    }
}

/// Whether the engine accepts the expression that `pattern` stands for.
pub open spec fn compiles(pattern: Seq<char>) -> bool {
    regex_accepts(wildcard_regex(pattern), usize::BITS as nat)
}

/// Whether the expression that `pattern` stands for finds `host`, as the
/// expression engine decides it.
pub open spec fn pattern_matches(pattern: Seq<char>, host: Seq<char>) -> bool {
    regex_is_match(wildcard_regex(pattern), host)
}

/// Whether `pattern` takes `host`: the engine accepts its expression, and
/// the expression finds the host.
pub open spec fn pattern_takes(pattern: Seq<char>, host: Seq<char>) -> bool {
    compiles(pattern) && pattern_matches(pattern, host)
}

/// What the engine is given for `*.suffix`, whatever the suffix: an
/// optional run of characters that ends in a dot, then the suffix with every
/// meta character escaped, a star in it too, between the two anchors. What
/// the engine makes of that expression is its own matter.
pub proof fn lemma_subdomain_expression(suffix: Seq<char>)
    ensures
        wildcard_regex(seq!['*', '.'] + suffix) == subdomain_prefix() + escaped(suffix) + seq![
            '$',
        ],
{
    let pattern = seq!['*', '.'] + suffix;
    assert(pattern[0] == '*' && pattern[1] == '.');
    assert(pattern.skip(2) == suffix);
}

/// `quoted` with every escaped star replaced by `.*`.
spec fn stars_opened(quoted: Seq<char>) -> Seq<char>
    decreases quoted.len(),
{
    if quoted.len() >= 2 && quoted[0] == '\\' && quoted[1] == '*' {
        seq!['.', '*'] + stars_opened(quoted.skip(2))
    } else if quoted.len() > 0 {
        seq![quoted[0]] + stars_opened(quoted.drop_first())
    } else {
        Seq::empty()
    }
}

proof fn lemma_escaped_never_starts_with_star(text: Seq<char>)
    ensures
        escaped(text).len() > 0 ==> escaped(text)[0] != '*',
        text.len() > 0 ==> escaped(text).len() > 0,
{
    if text.len() > 0 {
        assert(escaped(text) == escaped_char(text[0]) + escaped(text.drop_first()));
    }
}

proof fn lemma_stars_opened_of_escaped(pattern: Seq<char>)
    ensures
        stars_opened(escaped(pattern)) == glob_body(pattern),
    decreases pattern.len(),
{
    if pattern.len() > 0 {
        let c = pattern[0];
        let rest = pattern.drop_first();
        let quoted = escaped(pattern);
        lemma_stars_opened_of_escaped(rest);
        lemma_escaped_never_starts_with_star(rest);
        assert(quoted == escaped_char(c) + escaped(rest));
        if is_meta_character(c) {
            assert(quoted.len() >= 2 && quoted[0] == '\\' && quoted[1] == c);
            assert(quoted.skip(2) == escaped(rest));
            if c != '*' {
                let tail = quoted.drop_first();
                assert(tail == seq![c] + escaped(rest));
                assert(tail.drop_first() == escaped(rest));
                assert(stars_opened(tail) == seq![c] + stars_opened(escaped(rest)));
                assert(seq!['\\'] + (seq![c] + glob_body(rest)) == escaped_char(c) + glob_body(
                    rest,
                ));
            }
        } else {
            assert(quoted.drop_first() == escaped(rest));
        }
    }
}

/// Replaces every escaped star in `quoted` by `.*` and appends the result to
/// `out`.
fn push_stars_opened(out: &mut Vec<char>, quoted: &[char])
    ensures
        final(out)@ == old(out)@ + stars_opened(quoted@),
{
    let mut i: usize = 0;
    assert(quoted@.skip(0) == quoted@);
    while i < quoted.len()
        invariant
            i <= quoted.len(),
            out@ + stars_opened(quoted@.skip(i as int)) == old(out)@ + stars_opened(quoted@),
        decreases quoted.len() - i,
    {
        let ghost before = out@;
        let ghost rest = quoted@.skip(i as int);
        if quoted[i] == '\\' && i + 1 < quoted.len() && quoted[i + 1] == '*' {
            out.push('.');
            out.push('*');
            assert(rest.skip(2) == quoted@.skip(i + 2));
            assert(out@ == before + seq!['.', '*']);
            assert((before + seq!['.', '*']) + stars_opened(rest.skip(2)) == before + (seq![
                '.',
                '*',
            ] + stars_opened(rest.skip(2))));
            i += 2;
        } else {
            out.push(quoted[i]);
            assert(rest.drop_first() == quoted@.skip(i + 1));
            assert(out@ == before + seq![rest[0]]);
            assert((before + seq![rest[0]]) + stars_opened(rest.drop_first()) == before + (seq![
                rest[0],
            ] + stars_opened(rest.drop_first())));
            i += 1;
        }
    }
    assert(stars_opened(quoted@.skip(i as int)) == Seq::<char>::empty());
    assert(out@ + Seq::<char>::empty() == out@);
}

/// The anchored expression that a hostname pattern stands for.
pub fn wildcard_to_regex(pattern: &str) -> (expression: String)
    ensures
        expression@ == wildcard_regex(pattern@),
{
    let p = chars_of(pattern);
    let mut out: Vec<char> = Vec::new();
    if p.len() >= 2 && p[0] == '*' && p[1] == '.' {
        out.push('^');
        out.push('(');
        out.push('.');
        out.push('*');
        out.push('\\');
        out.push('.');
        out.push(')');
        out.push('?');
        assert(out@ == subdomain_prefix());
        let suffix = string_of_range(p.as_slice(), 2, p.len());
        assert(p@.subrange(2, p.len() as int) == p@.skip(2));
        let quoted = regex::escape(suffix.as_str());
        push_str(&mut out, quoted.as_str());
        out.push('$');
    } else {
        out.push('^');
        let quoted = regex::escape(pattern);
        let q = chars_of(quoted.as_str());
        push_stars_opened(&mut out, q.as_slice());
        proof {
            lemma_stars_opened_of_escaped(pattern@);
        }
        out.push('$');
    }
    string_of(out.as_slice())
}

/// A hostname pattern, compiled once and ready to be matched many times.
pub struct Pattern {
    matcher: Regex,
}

impl Pattern {
    /// The expression that this pattern was compiled from.
    pub closed spec fn expression(&self) -> Seq<char> {
        regex_source(self.matcher)
    }

    /// Whether the matcher was compiled with the engine's own options, as
    /// `compile` does it. Only then is what it matches a matter of its
    /// expression alone.
    pub closed spec fn plain(&self) -> bool {
        regex_is_plain(self.matcher)
    }

    /// Takes what the expression engine made of `wildcard_to_regex(pattern)`:
    /// a pattern where it accepted the expression, nothing where it refused.
    pub fn from_compiled(compiled: Result<Regex, regex::Error>) -> (r: Option<Pattern>)
        ensures
            match compiled {
                Ok(c) => r matches Some(p) && p.expression() == regex_source(c) && p.plain()
                    == regex_is_plain(c),
                Err(_) => r.is_none(),
            },
    {
        match compiled {
            Ok(matcher) => Some(Pattern { matcher }),
            Err(_) => None,
        }
    }

    /// Compiles `pattern`. The engine may refuse an expression, for instance
    /// one that is too large for it; then there is no pattern.
    pub fn compile(pattern: &str) -> (r: Option<Pattern>)
        ensures
            r is Some == compiles(pattern@),
            r matches Some(p) ==> p.expression() == wildcard_regex(pattern@) && p.plain(),
    {
        let expression = wildcard_to_regex(pattern);
        Pattern::from_compiled(Regex::new(expression.as_str()))
    }

    /// The expression that this pattern was compiled from.
    pub fn as_str(&self) -> (expression: &str)
        ensures
            expression@ == self.expression(),
    {
        self.matcher.as_str()
    }

    /// Whether `host` matches this pattern.
    pub fn matches(&self, host: &str) -> (r: bool)
        ensures
            self.plain() ==> r == regex_is_match(self.expression(), host@),
    {
        self.matcher.is_match(host)
    }
}

/// What a match attempt comes to: a pattern that could not be compiled
/// matches no host.
pub fn match_outcome(compiled: &Option<Pattern>, host: &str) -> (r: bool)
    ensures
        match compiled {
            Some(p) => p.plain() ==> r == regex_is_match(p.expression(), host@),
            None => !r,
        },
{
    match compiled {
        Some(p) => p.matches(host),
        None => false,
    }
}

/// Whether `host` matches the hostname pattern `pattern`. A pattern that the
/// expression engine refuses to compile matches nothing.
pub fn matches_pattern(host: &str, pattern: &str) -> (r: bool)
    ensures
        r == pattern_takes(pattern@, host@),
{
    let compiled = Pattern::compile(pattern);
    match_outcome(&compiled, host)
}

} // verus!
