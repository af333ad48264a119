//! Character-level building blocks shared by the protocol code: whitespace,
//! tokens, decimal numbers and conversions between strings and character
//! vectors. Everything is specified over `Seq<char>`.

use vstd::prelude::*;
use vstd::string::*;
use vstd::utf8::encode_utf8;

verus! {

/// The characters with the Unicode `White_Space` property.
pub open spec fn is_whitespace(c: char) -> bool {
    let u = c as u32;
    ||| 0x09 <= u <= 0x0D
    ||| u == 0x20
    ||| u == 0x85
    ||| u == 0xA0
    ||| u == 0x1680
    ||| 0x2000 <= u <= 0x200A
    ||| u == 0x2028
    ||| u == 0x2029
    ||| u == 0x202F
    ||| u == 0x205F
    ||| u == 0x3000
}

/// Whether `c` is whitespace.
pub fn char_is_whitespace(c: char) -> (r: bool)
    ensures
        r == is_whitespace(c),
{
    let u: u32 = c as u32;
    (0x09 <= u && u <= 0x0D) || u == 0x20 || u == 0x85 || u == 0xA0 || u == 0x1680 || (0x2000 <= u
        && u <= 0x200A) || u == 0x2028 || u == 0x2029 || u == 0x202F || u == 0x205F || u == 0x3000
}

/// `s` without its leading whitespace.
pub open spec fn skip_ws(s: Seq<char>) -> Seq<char>
    decreases s.len(),
{
    if s.len() > 0 && is_whitespace(s[0]) {
        skip_ws(s.drop_first())
    } else {
        s
    }
}

/// `s` without its trailing whitespace.
pub open spec fn drop_ws_tail(s: Seq<char>) -> Seq<char>
    decreases s.len(),
{
    if s.len() > 0 && is_whitespace(s.last()) {
        drop_ws_tail(s.drop_last())
    } else {
        s
    }
}

/// `s` with whitespace removed from both ends.
pub open spec fn trimmed(s: Seq<char>) -> Seq<char> {
    drop_ws_tail(skip_ws(s))
}

/// The longest prefix of `s` that holds no whitespace.
pub open spec fn take_token(s: Seq<char>) -> Seq<char>
    decreases s.len(),
{
    if s.len() > 0 && !is_whitespace(s[0]) {
        seq![s[0]] + take_token(s.drop_first())
    } else {
        Seq::empty()
    }
}

/// Position of the first `c` in `s`, or `s.len()` when there is none.
pub open spec fn find_char(s: Seq<char>, c: char) -> int
    decreases s.len(),
{
    if s.len() == 0 || s[0] == c {
        0
    } else {
        1 + find_char(s.drop_first(), c)
    }
}

/// Position of the last `c` in `s`, or `-1` when there is none.
pub open spec fn rfind_char(s: Seq<char>, c: char) -> int
    decreases s.len(),
{
    if s.len() == 0 {
        -1
    } else if s.last() == c {
        s.len() - 1
    } else {
        rfind_char(s.drop_last(), c)
    }
}

/// The ten decimal digits.
pub open spec fn is_digit(c: char) -> bool {
    '0' <= c <= '9'
}

pub open spec fn all_digits(s: Seq<char>) -> bool {
    forall|i: int| 0 <= i < s.len() ==> is_digit(#[trigger] s[i])
}

/// The number that a run of decimal digits denotes.
pub open spec fn digits_value(s: Seq<char>) -> nat
    decreases s.len(),
{
    if s.len() == 0 {
        0
    } else {
        (digits_value(s.drop_last()) * 10 + (s.last() as u32 - '0' as u32)) as nat
    }
}

/// The number that `s` denotes when it is an optional `+` followed by at
/// least one decimal digit and nothing else.
pub open spec fn decimal_value(s: Seq<char>) -> Option<nat> {
    let d = if s.len() > 0 && s[0] == '+' {
        s.drop_first()
    } else {
        s
    };
    if d.len() > 0 && all_digits(d) {
        Some(digits_value(d))
    } else {
        None
    }
}

/// `decimal_value`, limited to numbers up to `max`.
pub open spec fn bounded_decimal(s: Seq<char>, max: nat) -> Option<nat> {
    match decimal_value(s) {
        Some(v) if v <= max => Some(v),
        _ => None,
    }
}

/// The character that spells the digit `d`.
pub open spec fn digit_char(d: nat) -> char
    recommends
        d < 10,
{
    (('0' as u32 + d) as u32) as char
}

/// The shortest decimal spelling of `n`.
pub open spec fn decimal_repr(n: nat) -> Seq<char>
    decreases n,
{
    if n < 10 {
        seq![digit_char(n)]
    } else {
        decimal_repr(n / 10).push(digit_char(n % 10))
    }
}

/// Index of the first entry of `names` that equals `name`, or `names.len()`.
pub open spec fn first_named(names: Seq<Seq<char>>, name: Seq<char>) -> int
    decreases names.len(),
{
    if names.len() == 0 || names[0] == name {
        0
    } else {
        1 + first_named(names.drop_first(), name)
    }
}

/// `first_named` points at `name` where it occurs, and no entry before
/// that is `name`.
pub proof fn lemma_first_named(names: Seq<Seq<char>>, name: Seq<char>)
    ensures
        0 <= first_named(names, name) <= names.len(),
        first_named(names, name) < names.len() ==> names[first_named(names, name)] == name,
        forall|j: int| 0 <= j < first_named(names, name) ==> names[j] != name,
    decreases names.len(),
{
    if names.len() > 0 && names[0] != name {
        let rest = names.drop_first();
        lemma_first_named(rest, name);
        assert forall|j: int| 0 <= j < first_named(names, name) implies names[j] != name by {
            if j > 0 {
                assert(names[j] == rest[j - 1]);
            }
        }
    }
}

/// What `str::to_lowercase` makes of a string: its Unicode lowercase form.
pub uninterp spec fn lowercase_of(s: Seq<char>) -> Seq<char>;

/// `str::to_lowercase`: the result depends on the characters of `s` alone.
#[verifier::external_body]
pub(crate) fn to_lowercase(s: &str) -> (lower: String)
    ensures
        lower@ == lowercase_of(s@),
{
    s.to_lowercase()
}

/// Copies the characters of `s` into a vector.
pub fn chars_of(s: &str) -> (out: Vec<char>)
    ensures
        out@ == s@,
{
    let mut out: Vec<char> = Vec::new();
    for c in it: s.chars()
        invariant
            out@ == it.seq().take(it.index() as int),
            it.seq() == s@,
    {
        out.push(c);
    }
    out
}

/// `String::push`: the string grows by exactly the given character.
#[verifier::external_body]
fn push_char(s: &mut String, c: char)
    ensures
        final(s)@ == old(s)@.push(c),
{
    s.push(c);
}

/// Builds a string that holds the characters of `v`.
pub fn string_of(v: &[char]) -> (out: String)
    ensures
        out@ == v@,
{
    let mut out = String::new();
    let mut i: usize = 0;
    while i < v.len()
        invariant
            i <= v.len(),
            out@ == v@.take(i as int),
        decreases v.len() - i,
    {
        push_char(&mut out, v[i]);
        i += 1;
    }
    out
}

/// Builds a string from the characters `v[from..to]`.
pub fn string_of_range(v: &[char], from: usize, to: usize) -> (out: String)
    requires
        from <= to <= v.len(),
    ensures
        out@ == v@.subrange(from as int, to as int),
{
    let mut out = String::new();
    let mut i: usize = from;
    while i < to
        invariant
            from <= i <= to <= v.len(),
            out@ == v@.subrange(from as int, i as int),
        decreases to - i,
    {
        push_char(&mut out, v[i]);
        i += 1;
    }
    out
}

/// Appends the characters of `s` to `out`.
pub fn push_str(out: &mut Vec<char>, s: &str)
    ensures
        final(out)@ == old(out)@ + s@,
{
    for c in it: s.chars()
        invariant
            out@ == old(out)@ + it.seq().take(it.index() as int),
            it.seq() == s@,
    {
        out.push(c);
    }
}

/// Appends the characters of `s` to `out`.
pub fn push_chars(out: &mut Vec<char>, s: &[char])
    ensures
        final(out)@ == old(out)@ + s@,
{
    let mut i: usize = 0;
    while i < s.len()
        invariant
            i <= s.len(),
            out@ == old(out)@ + s@.take(i as int),
        decreases s.len() - i,
    {
        out.push(s[i]);
        i += 1;
    }
}

/// Whether two character runs are the same.
pub fn chars_eq(a: &[char], b: &[char]) -> (r: bool)
    ensures
        r == (a@ == b@),
{
    if a.len() != b.len() {
        return false;
    }
    let mut i: usize = 0;
    while i < a.len()
        invariant
            i <= a.len(),
            a.len() == b.len(),
            a@.take(i as int) == b@.take(i as int),
        decreases a.len() - i,
    {
        if a[i] != b[i] {
            return false;
        }
        assert(a@.take(i + 1) == a@.take(i as int).push(a@[i as int]));
        assert(b@.take(i + 1) == b@.take(i as int).push(b@[i as int]));
        i += 1;
    }
    assert(a@.take(a.len() as int) == a@);
    assert(b@.take(b.len() as int) == b@);
    true
}

/// Whether the strings `a` and `b` hold the same characters.
pub fn str_eq(a: &str, b: &str) -> (r: bool)
    ensures
        r == (a@ == b@),
{
    let av = chars_of(a);
    let bv = chars_of(b);
    chars_eq(av.as_slice(), bv.as_slice())
}

/// Whether `s` begins with `prefix`.
pub fn starts_with(s: &[char], prefix: &[char]) -> (r: bool)
    ensures
        r == prefix@.is_prefix_of(s@),
{
    if prefix.len() > s.len() {
        return false;
    }
    let mut i: usize = 0;
    while i < prefix.len()
        invariant
            i <= prefix.len() <= s.len(),
            s@.take(i as int) == prefix@.take(i as int),
        decreases prefix.len() - i,
    {
        if s[i] != prefix[i] {
            assert(s@.subrange(0, prefix.len() as int)[i as int] != prefix@[i as int]);
            return false;
        }
        assert(s@.take(i + 1) == s@.take(i as int).push(s@[i as int]));
        assert(prefix@.take(i + 1) == prefix@.take(i as int).push(prefix@[i as int]));
        i += 1;
    }
    assert(prefix@.take(prefix.len() as int) == prefix@);
    assert(s@.subrange(0, prefix.len() as int) == s@.take(prefix.len() as int));
    true
}

/// Index of the first character at or after `from` that is not whitespace.
pub fn skip_ws_from(s: &[char], from: usize) -> (at: usize)
    requires
        from <= s.len(),
    ensures
        from <= at <= s.len(),
        s@.skip(at as int) == skip_ws(s@.skip(from as int)),
{
    let mut i: usize = from;
    while i < s.len() && char_is_whitespace(s[i])
        invariant
            from <= i <= s.len(),
            skip_ws(s@.skip(i as int)) == skip_ws(s@.skip(from as int)),
        decreases s.len() - i,
    {
        assert(s@.skip(i as int).drop_first() == s@.skip(i + 1));
        i += 1;
    }
    i
}

/// Index just past the token that begins at `from`.
pub fn token_end(s: &[char], from: usize) -> (at: usize)
    requires
        from <= s.len(),
    ensures
        from <= at <= s.len(),
        s@.subrange(from as int, at as int) == take_token(s@.skip(from as int)),
{
    let mut i: usize = from;
    while i < s.len() && !char_is_whitespace(s[i])
        invariant
            from <= i <= s.len(),
            take_token(s@.skip(from as int)) == s@.subrange(from as int, i as int) + take_token(
                s@.skip(i as int),
            ),
        decreases s.len() - i,
    {
        assert(s@.skip(i as int).drop_first() == s@.skip(i + 1));
        assert(s@.subrange(from as int, i as int) + seq![s@[i as int]] == s@.subrange(
            from as int,
            i + 1,
        ));
        i += 1;
    }
    assert(s@.subrange(from as int, i as int) + Seq::<char>::empty() == s@.subrange(
        from as int,
        i as int,
    ));
    i
}

/// The bounds of `s[from..to]` without the whitespace at its two ends.
pub fn trim_range(s: &[char], from: usize, to: usize) -> (r: (usize, usize))
    requires
        from <= to <= s.len(),
    ensures
        from <= r.0 <= r.1 <= to,
        s@.subrange(r.0 as int, r.1 as int) == trimmed(s@.subrange(from as int, to as int)),
{
    let ghost part = s@.subrange(from as int, to as int);
    let mut a: usize = from;
    assert(part.skip(0) == part);
    while a < to && char_is_whitespace(s[a])
        invariant
            from <= a <= to <= s.len(),
            part == s@.subrange(from as int, to as int),
            skip_ws(part.skip(a - from)) == skip_ws(part),
        decreases to - a,
    {
        assert(part.skip(a - from).drop_first() == part.skip(a - from + 1));
        a += 1;
    }
    let ghost lead = part.skip(a - from);
    assert(lead == skip_ws(part));
    assert(lead == s@.subrange(a as int, to as int));
    let mut b: usize = to;
    while b > a && char_is_whitespace(s[b - 1])
        invariant
            a <= b <= to <= s.len(),
            lead == s@.subrange(a as int, to as int),
            drop_ws_tail(s@.subrange(a as int, b as int)) == drop_ws_tail(lead),
        decreases b,
    {
        assert(s@.subrange(a as int, b as int).drop_last() == s@.subrange(a as int, b - 1));
        b -= 1;
    }
    (a, b)
}

/// Index of the first `c` in `s`, or `s.len()`.
pub fn index_of(s: &[char], c: char) -> (at: usize)
    ensures
        at == find_char(s@, c),
        at <= s.len(),
{
    let mut i: usize = 0;
    assert(s@.skip(0) == s@);
    while i < s.len() && s[i] != c
        invariant
            i <= s.len(),
            find_char(s@, c) == i + find_char(s@.skip(i as int), c),
        decreases s.len() - i,
    {
        assert(s@.skip(i as int).drop_first() == s@.skip(i + 1));
        i += 1;
    }
    i
}

/// Index of the last `c` in `s`.
pub fn last_index_of(s: &[char], c: char) -> (at: Option<usize>)
    ensures
        match at {
            Some(i) => i == rfind_char(s@, c) && i < s.len(),
            None => rfind_char(s@, c) == -1,
        },
{
    let mut j: usize = s.len();
    assert(s@.take(j as int) == s@);
    while j > 0 && s[j - 1] != c
        invariant
            j <= s.len(),
            rfind_char(s@, c) == rfind_char(s@.take(j as int), c),
        decreases j,
    {
        assert(s@.take(j as int).drop_last() == s@.take(j - 1));
        j -= 1;
    }
    if j == 0 {
        None
    } else {
        Some(j - 1)
    }
}

/// Reads `s` as a decimal number no larger than `max`.
pub fn parse_bounded(s: &[char], max: u64) -> (r: Option<u64>)
    ensures
        match r {
            Some(v) => bounded_decimal(s@, max as nat) == Some(v as nat),
            None => bounded_decimal(s@, max as nat).is_none(),
        },
{
    let start: usize = if s.len() > 0 && s[0] == '+' {
        1
    } else {
        0
    };
    let ghost d = s@.skip(start as int);
    assert(d == if s@.len() > 0 && s@[0] == '+' {
        s@.drop_first()
    } else {
        s@
    });
    if start == s.len() {
        return None;
    }
    let mut acc: u64 = 0;
    let mut i: usize = start;
    let mut over: bool = false;
    assert(d.take(0).len() == 0);
    while i < s.len()
        invariant
            start <= i <= s.len(),
            d == s@.skip(start as int),
            d.len() > 0,
            decimal_value(s@) == if all_digits(d) {
                Some(digits_value(d))
            } else {
                None
            },
            all_digits(d.take(i - start)),
            !over ==> acc == digits_value(d.take(i - start)) && acc <= max,
            over ==> digits_value(d.take(i - start)) > max,
        decreases s.len() - i,
    {
        let c = s[i];
        let ghost prev = d.take(i - start);
        let ghost next = d.take(i - start + 1);
        assert(next.drop_last() == prev);
        assert(next.last() == c);
        if !(c >= '0' && c <= '9') {
            assert(!is_digit(d[i - start]));
            assert(!all_digits(d));
            return None;
        }
        assert(all_digits(next)) by {
            assert forall|k: int| 0 <= k < next.len() implies is_digit(#[trigger] next[k]) by {
                if k < prev.len() {
                    assert(next[k] == prev[k]);
                }
            }
        }
        let digit: u64 = (c as u32 - '0' as u32) as u64;
        if !over {
            let wide: u128 = acc as u128 * 10 + digit as u128;
            if wide > max as u128 {
                over = true;
            } else {
                acc = wide as u64;
            }
        } else {
            assert(digits_value(next) >= digits_value(prev)) by (nonlinear_arith)
                requires
                    digits_value(next) == digits_value(prev) * 10 + digit,
            ;
        }
        i += 1;
    }
    assert(d.take(i - start) == d);
    if over {
        None
    } else {
        Some(acc)
    }
}

/// The character that spells the digit `d`.
pub fn digit_to_char(d: u8) -> (c: char)
    requires
        d < 10,
    ensures
        c == digit_char(d as nat),
{
    match d {
        0 => '0',
        1 => '1',
        2 => '2',
        3 => '3',
        4 => '4',
        5 => '5',
        6 => '6',
        7 => '7',
        8 => '8',
        _ => '9',
    }
}

/// Appends the decimal spelling of `n` to `out`.
pub fn push_decimal(out: &mut Vec<char>, n: u64)
    ensures
        final(out)@ == old(out)@ + decimal_repr(n as nat),
    decreases n,
{
    if n >= 10 {
        push_decimal(out, n / 10);
    }
    let c: char = digit_to_char((n % 10) as u8);
    out.push(c);
    assert(out@ == old(out)@ + decimal_repr(n as nat)) by {
        if n >= 10 {
            assert(old(out)@ + decimal_repr((n / 10) as nat).push(c) == (old(out)@ + decimal_repr(
                (n / 10) as nat,
            )).push(c));
        } else {
            assert(old(out)@ + seq![c] == old(out)@.push(c));
        }
    }
}

/// The UTF-8 bytes of `chars`.
pub fn encode_text(chars: &[char]) -> (bytes: Vec<u8>)
    ensures
        bytes@ == encode_utf8(chars@),
{
    let text = string_of(chars);
    text.as_str().as_bytes_vec()
}

/// Every character of `s` is whitespace.
pub open spec fn all_whitespace(s: Seq<char>) -> bool {
    forall|i: int| 0 <= i < s.len() ==> is_whitespace(#[trigger] s[i])
}

/// No character of `s` is whitespace.
pub open spec fn no_whitespace(s: Seq<char>) -> bool {
    forall|i: int| 0 <= i < s.len() ==> !is_whitespace(#[trigger] s[i])
}

/// Leading whitespace does not count.
pub proof fn lemma_skip_ws_prefix(blank: Seq<char>, rest: Seq<char>)
    requires
        all_whitespace(blank),
    ensures
        skip_ws(blank + rest) == skip_ws(rest),
    decreases blank.len(),
{
    if blank.len() == 0 {
        assert(blank + rest == rest);
    } else {
        let whole = blank + rest;
        assert(whole[0] == blank[0]);
        assert(whole.drop_first() == blank.drop_first() + rest);
        assert forall|i: int| 0 <= i < blank.drop_first().len() implies is_whitespace(
            #[trigger] blank.drop_first()[i],
        ) by {
            assert(blank.drop_first()[i] == blank[i + 1]);
        }
        lemma_skip_ws_prefix(blank.drop_first(), rest);
    }
}

/// Trailing whitespace does not count.
pub proof fn lemma_drop_ws_tail_suffix(rest: Seq<char>, blank: Seq<char>)
    requires
        all_whitespace(blank),
    ensures
        drop_ws_tail(rest + blank) == drop_ws_tail(rest),
    decreases blank.len(),
{
    if blank.len() == 0 {
        assert(rest + blank == rest);
    } else {
        let whole = rest + blank;
        assert(whole.last() == blank.last());
        assert(whole.drop_last() == rest + blank.drop_last());
        assert forall|i: int| 0 <= i < blank.drop_last().len() implies is_whitespace(
            #[trigger] blank.drop_last()[i],
        ) by {
            assert(blank.drop_last()[i] == blank[i]);
        }
        lemma_drop_ws_tail_suffix(rest, blank.drop_last());
    }
}

/// A run without whitespace is one token, up to the whitespace or the end
/// that follows it.
pub proof fn lemma_take_token_prefix(word: Seq<char>, rest: Seq<char>)
    requires
        no_whitespace(word),
        rest.len() == 0 || is_whitespace(rest[0]),
    ensures
        take_token(word + rest) == word,
    decreases word.len(),
{
    if word.len() == 0 {
        assert(word + rest == rest);
    } else {
        let whole = word + rest;
        assert(whole[0] == word[0]);
        assert(whole.drop_first() == word.drop_first() + rest);
        assert forall|i: int| 0 <= i < word.drop_first().len() implies !is_whitespace(
            #[trigger] word.drop_first()[i],
        ) by {
            assert(word.drop_first()[i] == word[i + 1]);
        }
        lemma_take_token_prefix(word.drop_first(), rest);
        assert(seq![word[0]] + word.drop_first() == word);
    }
}

/// The first `c` after a run that holds none is found right after the run.
pub proof fn lemma_find_char_after(before: Seq<char>, c: char, rest: Seq<char>)
    requires
        forall|i: int| 0 <= i < before.len() ==> before[i] != c,
    ensures
        find_char(before + seq![c] + rest, c) == before.len(),
    decreases before.len(),
{
    let whole = before + seq![c] + rest;
    if before.len() == 0 {
        assert(whole[0] == c);
    } else {
        assert(whole[0] == before[0]);
        assert(whole.drop_first() == before.drop_first() + seq![c] + rest);
        assert forall|i: int| 0 <= i < before.drop_first().len() implies before.drop_first()[i]
            != c by {
            assert(before.drop_first()[i] == before[i + 1]);
        }
        lemma_find_char_after(before.drop_first(), c, rest);
    }
}

/// Removing the whitespace around a run that has none at its ends gives
/// the run back.
pub proof fn lemma_trimmed_between(lead: Seq<char>, core: Seq<char>, trail: Seq<char>)
    requires
        all_whitespace(lead),
        all_whitespace(trail),
        trimmed(core) == core,
    ensures
        trimmed(lead + core + trail) == core,
{
    assert(lead + core + trail == lead + (core + trail));
    lemma_skip_ws_prefix(lead, core + trail);
    lemma_trimmed_is_tight(core);
    if core.len() == 0 {
        assert(core + trail == trail);
        lemma_skip_ws_prefix(trail, Seq::<char>::empty());
        assert(trail + Seq::<char>::empty() == trail);
    } else {
        assert((core + trail)[0] == core[0]);
        lemma_drop_ws_tail_suffix(core, trail);
    }
}

/// A run that trimming leaves alone is empty or has no whitespace at
/// either end.
pub proof fn lemma_trimmed_is_tight(core: Seq<char>)
    requires
        trimmed(core) == core,
    ensures
        core.len() > 0 ==> !is_whitespace(core[0]) && !is_whitespace(core.last()),
        skip_ws(core) == core,
        drop_ws_tail(core) == core,
{
    lemma_skip_ws_shortens(core);
    lemma_drop_ws_tail_shortens(skip_ws(core));
}

/// Skipping whitespace only shortens a run, and what is left does not
/// begin with whitespace.
pub proof fn lemma_skip_ws_shortens(s: Seq<char>)
    ensures
        skip_ws(s).len() <= s.len(),
        skip_ws(s).len() == s.len() ==> skip_ws(s) == s,
        skip_ws(s).len() > 0 ==> !is_whitespace(skip_ws(s)[0]),
    decreases s.len(),
{
    if s.len() > 0 && is_whitespace(s[0]) {
        lemma_skip_ws_shortens(s.drop_first());
    }
}

/// Dropping trailing whitespace only shortens a run, and what is left
/// does not end in whitespace.
pub proof fn lemma_drop_ws_tail_shortens(s: Seq<char>)
    ensures
        drop_ws_tail(s).len() <= s.len(),
        drop_ws_tail(s).len() == s.len() ==> drop_ws_tail(s) == s,
        drop_ws_tail(s).len() > 0 ==> !is_whitespace(drop_ws_tail(s).last()),
    decreases s.len(),
{
    if s.len() > 0 && is_whitespace(s.last()) {
        lemma_drop_ws_tail_shortens(s.drop_last());
    }
}

/// `find_char` stays within the run and, short of its end, points at `c`.
pub proof fn lemma_find_char_bounds(s: Seq<char>, c: char)
    ensures
        0 <= find_char(s, c) <= s.len(),
        find_char(s, c) < s.len() ==> s[find_char(s, c)] == c,
    decreases s.len(),
{
    if s.len() > 0 && s[0] != c {
        lemma_find_char_bounds(s.drop_first(), c);
    }
}

/// Every digit has its character, and the character gives the digit back.
pub proof fn lemma_digit_char(d: nat)
    requires
        d < 10,
    ensures
        is_digit(digit_char(d)),
        digit_char(d) as u32 - '0' as u32 == d,
        digit_char(d) != '+',
{
    let c = digit_char(d);
    assert('0' as u32 == 48);
    assert('9' as u32 == 57);
    assert('+' as u32 == 43);
    assert(c as u32 == 48 + d);
}

/// A number that is written in decimal reads back as itself.
pub proof fn lemma_decimal_reads_back(n: nat)
    ensures
        decimal_repr(n).len() > 0,
        all_digits(decimal_repr(n)),
        digits_value(decimal_repr(n)) == n,
        decimal_value(decimal_repr(n)) == Some(n),
    decreases n,
{
    let text = decimal_repr(n);
    lemma_digit_char(n % 10);
    if n < 10 {
        assert(text.drop_last() == Seq::<char>::empty());
        assert(text.last() == digit_char(n));
        assert(digits_value(text.drop_last()) == 0);
    } else {
        lemma_decimal_reads_back(n / 10);
        let front = decimal_repr(n / 10);
        assert(text.drop_last() == front);
        assert(text.last() == digit_char(n % 10));
        assert forall|i: int| 0 <= i < text.len() implies is_digit(#[trigger] text[i]) by {
            if i < front.len() {
                assert(text[i] == front[i]);
            }
        }
        assert(n == (n / 10) * 10 + n % 10) by (nonlinear_arith);
    }
    assert(text[0] != '+') by {
        assert(is_digit(text[0]));
    }
}

} // verus!
