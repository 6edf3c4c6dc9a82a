//! MQTT topic subscriptions. A filter is turned into an anchored regular expression:
//! regex metacharacters are escaped, the single-level wildcard `+` matches a whole level
//! (any run of characters other than `/`, possibly empty), and a trailing multi-level
//! wildcard `/#` matches the parent level and every level below it.

use regex::Regex;
use rumqttc::QoS;
use vstd::prelude::*;

verus! {

/// `regex::Regex`, a compiled regular expression.
#[verifier::external_type_specification]
#[verifier::external_body]
pub struct ExRegex(Regex);

/// `regex::Error`, why a pattern did not compile.
#[verifier::external_type_specification]
#[verifier::external_body]
pub struct ExRegexError(regex::Error);

/// `rumqttc::QoS`, the quality of service asked for with a subscription.
#[verifier::external_type_specification]
#[verifier::external_body]
pub struct ExQoS(QoS);

/// Whether `re` matches somewhere in `haystack` (what `Regex::is_match` returns).
pub uninterp spec fn regex_is_match(re: Regex, haystack: Seq<char>) -> bool;

/// Compiles `pattern` with `regex::Regex::new`. Whether it succeeds is not stated: the
/// crate refuses patterns whose compiled size passes a limit counted in the target's
/// type sizes. Claimed of a regex it returns, when `pattern` is `^`, a body written with
/// the pieces of `regex_body_supported`, and `$`: it matches a haystack exactly when
/// `regex_text_matches` says so. This is what the regex syntax documentation gives for
/// those pieces (`^` and `$` match only at the ends of the haystack without the
/// multi-line flag, and `is_match` tells whether some match exists).
#[verifier::external_body]
fn compile_regex(pattern: &str) -> (r: Result<Regex, regex::Error>)
    ensures
        r matches Ok(re) ==> (regex_text_supported(pattern@) ==> forall|h: Seq<char>|
            #[trigger] regex_is_match(re, h) == regex_text_matches(pattern@, h)),
{
    Regex::new(pattern)
}

/// Calls `regex::Regex::is_match`. Claimed: the answer is `regex_is_match` of the regex
/// and the haystack, a function of these two alone.
#[verifier::external_body]
fn regex_find(re: &Regex, haystack: &str) -> (b: bool)
    ensures
        b == regex_is_match(*re, haystack@),
{
    re.is_match(haystack)
}

/// Calls `Clone::clone` on a `regex::Regex`. Claimed: the copy matches the same
/// haystacks (it shares the compiled program).
#[verifier::external_body]
fn clone_regex(re: &Regex) -> (r: Regex)
    ensures
        forall|h: Seq<char>| #[trigger] regex_is_match(r, h) == regex_is_match(*re, h),
{
    re.clone()
}

/// Calls `String::push`, which appends one character.
#[verifier::external_body]
fn push_char(s: &mut String, c: char)
    ensures
        final(s)@ == old(s)@.push(c),
{
    s.push(c)
}

/// The characters that a regex reads as syntax and that are escaped in a filter.
pub open spec fn is_regex_meta(c: char) -> bool {
    ||| c == '.'
    ||| c == '^'
    ||| c == '$'
    ||| c == '*'
    ||| c == '?'
    ||| c == '('
    ||| c == ')'
    ||| c == '['
    ||| c == ']'
    ||| c == '{'
    ||| c == '}'
    ||| c == '\\'
    ||| c == '|'
}

/// Whether `body` starts with `[^/]*`.
pub open spec fn starts_class_star(body: Seq<char>) -> bool {
    body.len() >= 5 && body[0] == '[' && body[1] == '^' && body[2] == '/' && body[3] == ']'
        && body[4] == '*'
}

/// Whether `body` starts with `.*`.
pub open spec fn starts_dot_star(body: Seq<char>) -> bool {
    body.len() >= 2 && body[0] == '.' && body[1] == '*'
}

/// Whether `body` starts with `(/.*)?`.
pub open spec fn starts_optional_levels(body: Seq<char>) -> bool {
    body.len() >= 6 && body[0] == '(' && body[1] == '/' && body[2] == '.' && body[3] == '*'
        && body[4] == ')' && body[5] == '?'
}

/// Whether `body` starts with a backslash escaping a metacharacter.
pub open spec fn starts_escape(body: Seq<char>) -> bool {
    body.len() >= 2 && body[0] == '\\' && is_regex_meta(body[1])
}

/// Whether `c` stands for itself in a regex: neither a metacharacter nor `+`.
pub open spec fn is_plain(c: char) -> bool {
    !is_regex_meta(c) && c != '+'
}

/// Whether `body` is written, from the front, with these regex pieces only: `[^/]*`,
/// `.*`, `(/.*)?`, a backslash before a metacharacter, and a plain character.
pub open spec fn regex_body_supported(body: Seq<char>) -> bool
    decreases body.len(),
{
    if body.len() == 0 {
        true
    } else if starts_class_star(body) {
        regex_body_supported(body.skip(5))
    } else if starts_dot_star(body) {
        regex_body_supported(body.skip(2))
    } else if starts_optional_levels(body) {
        regex_body_supported(body.skip(6))
    } else if starts_escape(body) {
        regex_body_supported(body.skip(2))
    } else if is_plain(body[0]) {
        regex_body_supported(body.drop_first())
    } else {
        false
    }
}

/// What a regex body written with the supported pieces matches, as the regex syntax
/// documentation gives it: `[^/]*` takes any run of characters other than `/`, `.*` any
/// run other than a newline, `(/.*)?` nothing or a `/` and such a run, an escaped
/// metacharacter and a plain character take themselves, one piece after the other.
pub open spec fn regex_body_matches(body: Seq<char>, haystack: Seq<char>) -> bool
    decreases body.len(), haystack.len(), 0nat,
{
    if body.len() == 0 {
        haystack.len() == 0
    } else if starts_class_star(body) {
        star_then_matches(body.skip(5), haystack, '/')
    } else if starts_dot_star(body) {
        star_then_matches(body.skip(2), haystack, '\n')
    } else if starts_optional_levels(body) {
        regex_body_matches(body.skip(6), haystack) || (haystack.len() > 0 && haystack[0] == '/'
            && star_then_matches(body.skip(6), haystack.drop_first(), '\n'))
    } else if starts_escape(body) {
        haystack.len() > 0 && haystack[0] == body[1] && regex_body_matches(
            body.skip(2),
            haystack.drop_first(),
        )
    } else if is_plain(body[0]) {
        haystack.len() > 0 && haystack[0] == body[0] && regex_body_matches(
            body.drop_first(),
            haystack.drop_first(),
        )
    } else {
        false
    }
}

/// What a run of characters other than `stop` followed by `rest` matches.
pub open spec fn star_then_matches(rest: Seq<char>, haystack: Seq<char>, stop: char) -> bool
    decreases rest.len(), haystack.len(), 1nat,
{
    regex_body_matches(rest, haystack) || (haystack.len() > 0 && haystack[0] != stop
        && star_then_matches(rest, haystack.drop_first(), stop))
}

/// Whether `pattern` is `^`, a supported body, then `$`.
pub open spec fn regex_text_supported(pattern: Seq<char>) -> bool {
    pattern.len() >= 2 && pattern[0] == '^' && pattern[pattern.len() - 1] == '$'
        && regex_body_supported(pattern.subrange(1, pattern.len() - 1))
}

/// What an anchored pattern `^body$` matches: the whole haystack is taken by the body.
pub open spec fn regex_text_matches(pattern: Seq<char>, haystack: Seq<char>) -> bool {
    regex_body_matches(pattern.subrange(1, pattern.len() - 1), haystack)
}

/// The regex text that stands for one character of a filter: `+` takes any run of
/// characters other than `/`, `#` any run of characters, metacharacters are escaped.
pub open spec fn translate_char(c: char) -> Seq<char> {
    if c == '+' {
        seq!['[', '^', '/', ']', '*']
    } else if c == '#' {
        seq!['.', '*']
    } else if is_regex_meta(c) {
        seq!['\\', c]
    } else {
        seq![c]
    }
}

/// The regex text that stands for a filter, character by character.
pub open spec fn translate(filter: Seq<char>) -> Seq<char>
    decreases filter.len(),
{
    if filter.len() == 0 {
        Seq::empty()
    } else {
        translate_char(filter[0]) + translate(filter.drop_first())
    }
}

/// Whether a filter ends with the multi-level wildcard as a whole level, `/#`, which
/// also takes the parent level.
pub open spec fn ends_with_any_levels(filter: Seq<char>) -> bool {
    filter.len() >= 2 && filter[filter.len() - 2] == '/' && filter[filter.len() - 1] == '#'
}

/// The regex text for a trailing `/#`: optionally a `/` followed by any run of
/// characters.
pub open spec fn any_levels_text() -> Seq<char> {
    seq!['(', '/', '.', '*', ')', '?']
}

/// The regex text for a whole filter.
pub open spec fn pattern_body(filter: Seq<char>) -> Seq<char> {
    if ends_with_any_levels(filter) {
        translate(filter.take(filter.len() - 2)) + any_levels_text()
    } else {
        translate(filter)
    }
}

/// The anchored pattern a subscription to `filter` is compiled from.
pub open spec fn topic_pattern(filter: Seq<char>) -> Seq<char> {
    seq!['^'] + pattern_body(filter) + seq!['$']
}

/// Whether no character of `s` is `c`.
pub open spec fn lacks(s: Seq<char>, c: char) -> bool {
    forall|i: int| 0 <= i < s.len() ==> s[i] != c
}

/// What is left of a topic once the filter is used up: nothing, or, when the filter
/// ended with `/#`, a `/` and any run of characters other than a newline.
pub open spec fn end_accepts(topic: Seq<char>, any_levels: bool) -> bool {
    topic.len() == 0 || (any_levels && topic[0] == '/' && lacks(topic.drop_first(), '\n'))
}

/// Whether `topic` is taken by `filter`, followed by the optional levels of a trailing
/// `/#` when `any_levels` holds: `+` takes any run of characters other than `/`, `#` any
/// run of characters other than a newline, and every other character of the filter,
/// metacharacters included, stands for itself.
pub open spec fn accepts(filter: Seq<char>, topic: Seq<char>, any_levels: bool) -> bool
    decreases filter.len(), topic.len(), 1nat,
{
    if filter.len() == 0 {
        end_accepts(topic, any_levels)
    } else if filter[0] == '+' {
        wildcard_accepts(filter, topic, '/', any_levels)
    } else if filter[0] == '#' {
        wildcard_accepts(filter, topic, '\n', any_levels)
    } else {
        topic.len() > 0 && topic[0] == filter[0] && accepts(
            filter.drop_first(),
            topic.drop_first(),
            any_levels,
        )
    }
}

/// With the wildcard `filter[0]` under way, whether `topic` is taken: either the wildcard
/// ends here and the rest of the filter takes `topic`, or it also takes the next
/// character, which must not be `stop`.
pub open spec fn wildcard_accepts(
    filter: Seq<char>,
    topic: Seq<char>,
    stop: char,
    any_levels: bool,
) -> bool
    decreases filter.len(), topic.len(), 0nat,
{
    filter.len() > 0 && (accepts(filter.drop_first(), topic, any_levels) || (topic.len() > 0
        && topic[0] != stop && wildcard_accepts(filter, topic.drop_first(), stop, any_levels)))
}

/// Whether a subscription to `filter` accepts `topic`, by the MQTT wildcards: `+` takes a
/// whole level, possibly empty, and a trailing `/#` takes the parent level and every
/// level below it.
pub open spec fn filter_matches(filter: Seq<char>, topic: Seq<char>) -> bool {
    if ends_with_any_levels(filter) {
        accepts(filter.take(filter.len() - 2), topic, true)
    } else {
        accepts(filter, topic, false)
    }
}

/// The number of level separators in `s`.
pub open spec fn levels(s: Seq<char>) -> nat
    decreases s.len(),
{
    if s.len() == 0 {
        0
    } else {
        (if s[0] == '/' { 1nat } else { 0nat }) + levels(s.drop_first())
    }
}

/// The rest of a sequence keeps what the sequence lacks.
proof fn lemma_lacks_drop_first(s: Seq<char>, c: char)
    requires
        s.len() > 0,
        lacks(s, c),
    ensures
        lacks(s.drop_first(), c),
{
    assert forall|i: int| 0 <= i < s.drop_first().len() implies s.drop_first()[i] != c by {
        assert(s.drop_first()[i] == s[i + 1]);
    }
}

/// Without wildcards, a filter part takes a topic that begins with it and continues
/// with whatever the end of the filter takes.
proof fn lemma_plain_accepts(filter: Seq<char>, topic: Seq<char>, any_levels: bool)
    requires
        lacks(filter, '+'),
        lacks(filter, '#'),
    ensures
        accepts(filter, topic, any_levels) <==> (topic.len() >= filter.len() && topic.take(
            filter.len() as int,
        ) == filter && end_accepts(topic.skip(filter.len() as int), any_levels)),
    decreases filter.len(),
{
    if filter.len() == 0 {
        assert(topic.skip(0) =~= topic);
        assert(topic.take(0) =~= filter);
    } else {
        let rest = filter.drop_first();
        lemma_lacks_drop_first(filter, '+');
        lemma_lacks_drop_first(filter, '#');
        assert(filter[0] != '+' && filter[0] != '#');
        if topic.len() > 0 {
            lemma_plain_accepts(rest, topic.drop_first(), any_levels);
            if topic.len() >= filter.len() {
                assert(topic.drop_first().skip(rest.len() as int) =~= topic.skip(
                    filter.len() as int,
                ));
                assert(topic.drop_first().take(rest.len() as int) =~= topic.take(
                    filter.len() as int,
                ).drop_first());
                if topic.take(filter.len() as int) == filter {
                    assert(topic[0] == topic.take(filter.len() as int)[0]);
                }
                if topic[0] == filter[0] && topic.drop_first().take(rest.len() as int) == rest {
                    assert(topic.take(filter.len() as int) =~= filter) by {
                        assert forall|i: int| 0 <= i < filter.len() implies topic.take(
                            filter.len() as int,
                        )[i] == filter[i] by {
                            if i > 0 {
                                assert(topic.drop_first().take(rest.len() as int)[i - 1]
                                    == topic[i]);
                                assert(rest[i - 1] == filter[i]);
                            }
                        }
                    }
                }
            }
        }
    }
}

/// A filter without wildcards accepts exactly the topic spelled like it: its
/// metacharacters match only themselves.
pub proof fn lemma_plain_filter_matches_itself(filter: Seq<char>, topic: Seq<char>)
    requires
        lacks(filter, '+'),
        lacks(filter, '#'),
    ensures
        filter_matches(filter, topic) <==> topic == filter,
{
    if filter.len() >= 2 {
        assert(filter[filter.len() - 1] != '#');
    }
    lemma_plain_accepts(filter, topic, false);
    if topic == filter {
        assert(topic.take(filter.len() as int) =~= filter);
        assert(topic.skip(filter.len() as int).len() == 0);
    }
    if topic.len() >= filter.len() && topic.take(filter.len() as int) == filter && end_accepts(
        topic.skip(filter.len() as int),
        false,
    ) {
        assert(topic =~= filter);
    }
}

/// A filter `p/#`, with `p` free of wildcards, takes the parent level `p` itself and
/// every topic `p/x` below it (`x` without a newline).
pub proof fn lemma_multi_level_takes_parent(p: Seq<char>, x: Seq<char>)
    requires
        lacks(p, '+'),
        lacks(p, '#'),
        lacks(x, '\n'),
    ensures
        filter_matches(p + seq!['/', '#'], p),
        filter_matches(p + seq!['/', '#'], p + seq!['/'] + x),
{
    let f = p + seq!['/', '#'];
    assert(f[f.len() - 2] == '/' && f[f.len() - 1] == '#');
    assert(f.take(f.len() - 2) =~= p);
    lemma_plain_accepts(p, p, true);
    assert(p.take(p.len() as int) =~= p);
    assert(p.skip(p.len() as int).len() == 0);
    let t = p + seq!['/'] + x;
    lemma_plain_accepts(p, t, true);
    assert(t.take(p.len() as int) =~= p);
    assert(t.skip(p.len() as int) =~= seq!['/'] + x);
    assert((seq!['/'] + x).drop_first() =~= x);
}

/// The part of a topic a filter part takes, when neither holds `#`, has as many levels
/// as the filter part.
proof fn lemma_accepts_keeps_levels(filter: Seq<char>, topic: Seq<char>)
    requires
        lacks(filter, '#'),
        accepts(filter, topic, false),
    ensures
        levels(topic) == levels(filter),
    decreases filter.len(), topic.len(), 1nat,
{
    if filter.len() > 0 {
        lemma_lacks_drop_first(filter, '#');
        if filter[0] == '+' {
            lemma_plus_keeps_levels(filter, topic);
        } else {
            assert(filter[0] != '#');
            lemma_accepts_keeps_levels(filter.drop_first(), topic.drop_first());
        }
    }
}

/// What a `+` and the rest of the filter take has as many levels as the rest of the
/// filter: the `+` never takes a `/`.
proof fn lemma_plus_keeps_levels(filter: Seq<char>, topic: Seq<char>)
    requires
        filter.len() > 0,
        filter[0] == '+',
        lacks(filter, '#'),
        wildcard_accepts(filter, topic, '/', false),
    ensures
        levels(topic) == levels(filter.drop_first()),
    decreases filter.len(), topic.len(), 0nat,
{
    lemma_lacks_drop_first(filter, '#');
    if accepts(filter.drop_first(), topic, false) {
        lemma_accepts_keeps_levels(filter.drop_first(), topic);
    } else {
        lemma_plus_keeps_levels(filter, topic.drop_first());
    }
}

/// Without `#`, a filter only accepts topics with as many levels as it has: `+` never
/// reaches across a `/`.
pub proof fn lemma_single_level_wildcard_keeps_levels(filter: Seq<char>, topic: Seq<char>)
    requires
        lacks(filter, '#'),
        filter_matches(filter, topic),
    ensures
        levels(topic) == levels(filter),
{
    if filter.len() >= 2 {
        assert(filter[filter.len() - 1] != '#');
    }
    lemma_accepts_keeps_levels(filter, topic);
}

/// Translation works piece by piece: the text for a concatenation is the concatenation
/// of the texts.
pub proof fn lemma_translate_concat(a: Seq<char>, b: Seq<char>)
    ensures
        translate(a + b) == translate(a) + translate(b),
    decreases a.len(),
{
    if a.len() == 0 {
        assert(a + b =~= b);
    } else {
        lemma_translate_concat(a.drop_first(), b);
        assert((a + b).drop_first() =~= a.drop_first() + b);
        assert((a + b)[0] == a[0]);
        assert(translate(a + b) =~= translate(a) + translate(b));
    }
}

/// Appending one character to a filter appends its text to the filter's text.
pub proof fn lemma_translate_push(a: Seq<char>, c: char)
    ensures
        translate(a.push(c)) == translate(a) + translate_char(c),
{
    lemma_translate_concat(a, seq![c]);
    assert(a + seq![c] =~= a.push(c));
    let s = seq![c];
    assert(s[0] == c);
    assert(s.drop_first() =~= Seq::<char>::empty());
    assert(translate(s.drop_first()) == Seq::<char>::empty());
    assert(translate(s) =~= translate_char(c));
}

/// A filter without wildcards or regex metacharacters stands for itself in its pattern.
pub proof fn lemma_plain_filter_is_literal(filter: Seq<char>)
    requires
        forall|i: int|
            0 <= i < filter.len() ==> {
                let c = #[trigger] filter[i];
                c != '+' && c != '#' && !is_regex_meta(c)
            },
    ensures
        translate(filter) == filter,
        topic_pattern(filter) == seq!['^'] + filter + seq!['$'],
    decreases filter.len(),
{
    if filter.len() > 0 {
        let rest = filter.drop_first();
        assert forall|i: int| 0 <= i < rest.len() implies {
            let c = #[trigger] rest[i];
            c != '+' && c != '#' && !is_regex_meta(c)
        } by {
            assert(rest[i] == filter[i + 1]);
        }
        lemma_plain_filter_is_literal(rest);
        let c = filter[0];
        assert(translate_char(c) =~= seq![c]);
        assert(seq![c] + rest =~= filter);
    }
    if filter.len() >= 2 {
        assert(filter[filter.len() - 1] != '#');
    }
}

/// Every character's text is non-empty, and its first one or two characters tell
/// which character it stands for.
proof fn lemma_translate_char_prefix_free(c: char, d: char, rest_c: Seq<char>, rest_d: Seq<char>)
    requires
        translate_char(c) + rest_c == translate_char(d) + rest_d,
    ensures
        c == d,
        rest_c == rest_d,
{
    let tc = translate_char(c);
    let td = translate_char(d);
    let x = tc + rest_c;
    assert(x[0] == tc[0]);
    assert(x[0] == td[0]);
    if tc.len() >= 2 && td.len() >= 2 {
        assert(x[1] == tc[1]);
        assert(x[1] == td[1]);
    }
    if tc.len() >= 2 && td.len() < 2 {
        assert(td.len() == 1 && td[0] == d);
    }
    if td.len() >= 2 && tc.len() < 2 {
        assert(tc.len() == 1 && tc[0] == c);
    }
    assert(c == d);
    assert(rest_c =~= x.subrange(tc.len() as int, x.len() as int));
    assert(rest_d =~= x.subrange(td.len() as int, x.len() as int));
}

/// A filter's text is read back from the front unambiguously, up to a following text
/// that is empty or starts with `(`, which no character's text starts with.
proof fn lemma_translate_decodes(a: Seq<char>, b: Seq<char>, s: Seq<char>, t: Seq<char>)
    requires
        translate(a) + s == translate(b) + t,
        s.len() == 0 || s[0] == '(',
        t.len() == 0 || t[0] == '(',
    ensures
        a == b,
        s == t,
    decreases a.len() + b.len(),
{
    if a.len() == 0 && b.len() == 0 {
        assert(translate(a) + s =~= s);
        assert(translate(b) + t =~= t);
        assert(a =~= b);
    } else if a.len() == 0 {
        let x = translate(b) + t;
        assert(translate(a) + s =~= s);
        assert(x[0] == translate_char(b[0])[0]);
        assert(false);
    } else if b.len() == 0 {
        let x = translate(a) + s;
        assert(translate(b) + t =~= t);
        assert(x[0] == translate_char(a[0])[0]);
        assert(false);
    } else {
        let ra = translate(a.drop_first()) + s;
        let rb = translate(b.drop_first()) + t;
        assert(translate(a) + s =~= translate_char(a[0]) + ra);
        assert(translate(b) + t =~= translate_char(b[0]) + rb);
        lemma_translate_char_prefix_free(a[0], b[0], ra, rb);
        lemma_translate_decodes(a.drop_first(), b.drop_first(), s, t);
        assert(a =~= seq![a[0]] + a.drop_first());
        assert(b =~= seq![b[0]] + b.drop_first());
    }
}

/// Escaping is faithful: two different filters never compile to the same pattern, so
/// no filter can pose as another one.
pub proof fn lemma_topic_pattern_injective(a: Seq<char>, b: Seq<char>)
    requires
        topic_pattern(a) == topic_pattern(b),
    ensures
        a == b,
{
    let pa = topic_pattern(a);
    assert(pattern_body(a) =~= pa.subrange(1, pa.len() - 1));
    assert(pattern_body(b) =~= pa.subrange(1, pa.len() - 1));
    let ea = ends_with_any_levels(a);
    let eb = ends_with_any_levels(b);
    let qa = if ea { a.take(a.len() - 2) } else { a };
    let qb = if eb { b.take(b.len() - 2) } else { b };
    let sa = if ea { any_levels_text() } else { Seq::<char>::empty() };
    let sb = if eb { any_levels_text() } else { Seq::<char>::empty() };
    assert(pattern_body(a) =~= translate(qa) + sa);
    assert(pattern_body(b) =~= translate(qb) + sb);
    lemma_translate_decodes(qa, qb, sa, sb);
    if ea {
        assert(sa.len() > 0);
        assert(a =~= qa + seq!['/', '#']);
        assert(b =~= qb + seq!['/', '#']);
    }
}

/// The pieces of `(/.*)?`, one by one.
proof fn lemma_optional_levels_text()
    ensures
        starts_optional_levels(any_levels_text()),
        any_levels_text().len() == 6,
        !starts_class_star(any_levels_text()),
        !starts_dot_star(any_levels_text()),
{
    let s = any_levels_text();
    assert(s[0] == '(' && s[1] == '/' && s[2] == '.' && s[3] == '*' && s[4] == ')' && s[5] == '?');
}

/// How a character's text, followed by `r`, reads as regex pieces: `+` as `[^/]*`, `#`
/// as `.*`, a metacharacter as its escape, any other character as itself; after the
/// piece comes `r`.
proof fn lemma_code_shape(c: char, r: Seq<char>)
    ensures
        ({
            let body = translate_char(c) + r;
            if c == '+' {
                starts_class_star(body) && body.skip(5) == r
            } else if c == '#' {
                !starts_class_star(body) && starts_dot_star(body) && body.skip(2) == r
            } else if is_regex_meta(c) {
                !starts_class_star(body) && !starts_dot_star(body) && !starts_optional_levels(body)
                    && starts_escape(body) && body[1] == c && body.skip(2) == r
            } else {
                !starts_class_star(body) && !starts_dot_star(body) && !starts_optional_levels(body)
                    && !starts_escape(body) && is_plain(body[0]) && body[0] == c
                    && body.drop_first() == r
            }
        }),
{
    let body = translate_char(c) + r;
    let code = translate_char(c);
    assert forall|i: int| 0 <= i < code.len() implies body[i] == code[i] by {}
    if c == '+' {
        assert(code[0] == '[' && code[1] == '^' && code[2] == '/' && code[3] == ']' && code[4] == '*');
        assert(body.skip(5) =~= r);
    } else if c == '#' {
        assert(code[0] == '.' && code[1] == '*');
        assert(body.skip(2) =~= r);
    } else if is_regex_meta(c) {
        assert(code[0] == '\\' && code[1] == c);
        assert(body.skip(2) =~= r);
    } else {
        assert(code[0] == c);
        assert(body.drop_first() =~= r);
    }
}

/// A run of characters other than `stop` with nothing after it takes exactly the
/// haystacks without `stop`.
proof fn lemma_star_alone(haystack: Seq<char>, stop: char)
    ensures
        star_then_matches(Seq::<char>::empty(), haystack, stop) == lacks(haystack, stop),
    decreases haystack.len(),
{
    let e = Seq::<char>::empty();
    assert(regex_body_matches(e, haystack) == (haystack.len() == 0));
    if haystack.len() > 0 {
        lemma_star_alone(haystack.drop_first(), stop);
        if lacks(haystack, stop) {
            lemma_lacks_drop_first(haystack, stop);
        }
        if haystack[0] != stop && lacks(haystack.drop_first(), stop) {
            assert forall|i: int| 0 <= i < haystack.len() implies haystack[i] != stop by {
                if i > 0 {
                    assert(haystack[i] == haystack.drop_first()[i - 1]);
                }
            }
        }
    }
}

/// The text of a filter part, followed by nothing or by `(/.*)?`, is written with the
/// supported regex pieces only.
proof fn lemma_translate_supported(p: Seq<char>, s: Seq<char>)
    requires
        s == Seq::<char>::empty() || s == any_levels_text(),
    ensures
        regex_body_supported(translate(p) + s),
    decreases p.len(),
{
    if p.len() == 0 {
        assert(translate(p) + s =~= s);
        if s.len() > 0 {
            lemma_optional_levels_text();
            assert(s.skip(6) =~= Seq::<char>::empty());
            assert(regex_body_supported(Seq::<char>::empty()));
        }
    } else {
        let c = p[0];
        let r = translate(p.drop_first()) + s;
        let body = translate(p) + s;
        assert(body =~= translate_char(c) + r);
        lemma_translate_supported(p.drop_first(), s);
        lemma_code_shape(c, r);
    }
}

/// The text of a filter part, followed by nothing or by `(/.*)?`, matches exactly what
/// the filter part takes, followed by the optional levels when `(/.*)?` is there.
proof fn lemma_translate_denotes(p: Seq<char>, s: Seq<char>, h: Seq<char>)
    requires
        s == Seq::<char>::empty() || s == any_levels_text(),
    ensures
        regex_body_matches(translate(p) + s, h) == accepts(p, h, s.len() > 0),
    decreases p.len(), h.len(), 1nat,
{
    if p.len() == 0 {
        assert(translate(p) + s =~= s);
        if s.len() > 0 {
            lemma_optional_levels_text();
            let e = Seq::<char>::empty();
            assert(s.skip(6) =~= e);
            assert(regex_body_matches(e, h) == (h.len() == 0));
            if h.len() > 0 {
                lemma_star_alone(h.drop_first(), '\n');
            }
        } else {
            assert(s.len() == 0);
        }
    } else {
        let c = p[0];
        let r = translate(p.drop_first()) + s;
        let body = translate(p) + s;
        assert(body =~= translate_char(c) + r);
        lemma_code_shape(c, r);
        if c == '+' {
            lemma_wildcard_denotes(p, s, h, '/');
        } else if c == '#' {
            lemma_wildcard_denotes(p, s, h, '\n');
        } else if h.len() > 0 {
            lemma_translate_denotes(p.drop_first(), s, h.drop_first());
        }
    }
}

/// After a wildcard, a run of characters other than its stop character followed by the
/// text of the rest of the filter matches what the wildcard and the rest take.
proof fn lemma_wildcard_denotes(p: Seq<char>, s: Seq<char>, h: Seq<char>, stop: char)
    requires
        p.len() > 0,
        s == Seq::<char>::empty() || s == any_levels_text(),
    ensures
        star_then_matches(translate(p.drop_first()) + s, h, stop) == wildcard_accepts(
            p,
            h,
            stop,
            s.len() > 0,
        ),
    decreases p.len(), h.len(), 0nat,
{
    lemma_translate_denotes(p.drop_first(), s, h);
    if h.len() > 0 {
        lemma_wildcard_denotes(p, s, h.drop_first(), stop);
    }
}

/// Every filter's anchored pattern is written with the supported pieces only, and it
/// matches exactly the topics the filter accepts.
pub proof fn lemma_topic_pattern_denotes(filter: Seq<char>)
    ensures
        regex_text_supported(topic_pattern(filter)),
        forall|h: Seq<char>|
            #[trigger] regex_text_matches(topic_pattern(filter), h) == filter_matches(filter, h),
{
    let e = ends_with_any_levels(filter);
    let q = if e { filter.take(filter.len() - 2) } else { filter };
    let s = if e { any_levels_text() } else { Seq::<char>::empty() };
    let pat = topic_pattern(filter);
    assert(pattern_body(filter) =~= translate(q) + s);
    assert(pat.subrange(1, pat.len() - 1) =~= pattern_body(filter));
    lemma_translate_supported(q, s);
    assert forall|h: Seq<char>|
        #[trigger] regex_text_matches(topic_pattern(filter), h) == filter_matches(filter, h) by {
        lemma_translate_denotes(q, s, h);
    }
}

/// A filter part that takes `t` also takes `t` followed by anything the optional levels
/// of a trailing `/#` take.
proof fn lemma_accepts_extends(p: Seq<char>, t: Seq<char>, x: Seq<char>)
    requires
        accepts(p, t, false),
        end_accepts(x, true),
    ensures
        accepts(p, t + x, true),
    decreases p.len(), t.len(), 1nat,
{
    if p.len() == 0 {
        assert(t + x =~= x);
    } else if p[0] == '+' {
        lemma_wildcard_extends(p, t, x, '/');
    } else if p[0] == '#' {
        lemma_wildcard_extends(p, t, x, '\n');
    } else {
        lemma_accepts_extends(p.drop_first(), t.drop_first(), x);
        assert((t + x).drop_first() =~= t.drop_first() + x);
    }
}

/// The wildcard form of `lemma_accepts_extends`.
proof fn lemma_wildcard_extends(p: Seq<char>, t: Seq<char>, x: Seq<char>, stop: char)
    requires
        wildcard_accepts(p, t, stop, false),
        end_accepts(x, true),
    ensures
        wildcard_accepts(p, t + x, stop, true),
    decreases p.len(), t.len(), 0nat,
{
    if accepts(p.drop_first(), t, false) {
        lemma_accepts_extends(p.drop_first(), t, x);
    } else {
        lemma_wildcard_extends(p, t.drop_first(), x, stop);
        assert((t + x).drop_first() =~= t.drop_first() + x);
        assert((t + x)[0] == t[0]);
    }
}

/// A filter `p/#`, for any `p` without `#` (single-level wildcards included), takes
/// every topic `p` takes, and every level below it: `t` and `t/x` for each topic `t` of
/// `p` and each `x` without a newline.
pub proof fn lemma_multi_level_takes_all_below(p: Seq<char>, t: Seq<char>, x: Seq<char>)
    requires
        lacks(p, '#'),
        filter_matches(p, t),
        lacks(x, '\n'),
    ensures
        filter_matches(p + seq!['/', '#'], t),
        filter_matches(p + seq!['/', '#'], t + seq!['/'] + x),
{
    if p.len() >= 2 {
        assert(p[p.len() - 1] != '#');
    }
    let f = p + seq!['/', '#'];
    assert(f[f.len() - 2] == '/' && f[f.len() - 1] == '#');
    assert(f.take(f.len() - 2) =~= p);
    lemma_accepts_extends(p, t, Seq::<char>::empty());
    assert(t + Seq::<char>::empty() =~= t);
    let y = seq!['/'] + x;
    assert(y.drop_first() =~= x);
    lemma_accepts_extends(p, t, y);
    assert(t + y =~= t + seq!['/'] + x);
}

/// Appends the regex text for `c` to `pattern`.
fn push_translated(pattern: &mut String, c: char)
    ensures
        final(pattern)@ == old(pattern)@ + translate_char(c),
{
    if c == '+' {
        push_char(pattern, '[');
        push_char(pattern, '^');
        push_char(pattern, '/');
        push_char(pattern, ']');
        push_char(pattern, '*');
    } else if c == '#' {
        push_char(pattern, '.');
        push_char(pattern, '*');
    } else if c == '.' || c == '^' || c == '$' || c == '*' || c == '?' || c == '(' || c == ')'
        || c == '[' || c == ']' || c == '{' || c == '}' || c == '\\' || c == '|' {
        push_char(pattern, '\\');
        push_char(pattern, c);
    } else {
        push_char(pattern, c);
    }
    assert(final(pattern)@ =~= old(pattern)@ + translate_char(c));
}

/// The anchored regex pattern for a subscription to `topic`: metacharacters escaped,
/// `+` turned into `[^/]*`, `#` into `.*`, and a trailing `/#` into `(/.*)?`.
pub fn topic_regex_pattern(topic: &str) -> (pattern: String)
    ensures
        pattern@ == topic_pattern(topic@),
{
    broadcast use vstd::string::group_string_axioms;
    let mut chars: Vec<char> = Vec::new();
    for c in it: topic.chars()
        invariant
            it.seq() == topic@,
            chars@ == topic@.take(it.index()),
    {
        chars.push(c);
        assert(topic@.take(it.index()).push(c) =~= topic@.take(it.index() + 1));
    }
    assert(chars@ =~= topic@);
    let n = chars.len();
    let any_levels = n >= 2 && chars[n - 2] == '/' && chars[n - 1] == '#';
    let limit = if any_levels {
        n - 2
    } else {
        n
    };
    let mut pattern = String::new();
    push_char(&mut pattern, '^');
    let mut i: usize = 0;
    while i < limit
        invariant
            chars@ == topic@,
            limit <= n == chars@.len(),
            i <= limit,
            pattern@ == seq!['^'] + translate(chars@.take(i as int)),
        decreases limit - i,
    {
        let c = chars[i];
        proof {
            lemma_translate_push(chars@.take(i as int), c);
            assert(chars@.take(i as int).push(c) =~= chars@.take(i + 1));
        }
        push_translated(&mut pattern, c);
        i = i + 1;
    }
    if any_levels {
        push_char(&mut pattern, '(');
        push_char(&mut pattern, '/');
        push_char(&mut pattern, '.');
        push_char(&mut pattern, '*');
        push_char(&mut pattern, ')');
        push_char(&mut pattern, '?');
    }
    push_char(&mut pattern, '$');
    proof {
        assert(ends_with_any_levels(topic@) == any_levels);
        if !any_levels {
            assert(chars@.take(n as int) =~= topic@);
        }
        assert(pattern@ =~= topic_pattern(topic@));
    }
    pattern
}

/// Why a subscription could not be made.
#[derive(Debug)]
pub enum SubscribeTopicError {
    /// The regex crate refused the pattern built from the filter.
    Regex(regex::Error),
}

/// A subscription to an MQTT topic filter with a quality of service.
#[derive(Debug)]
pub struct SubscribeTopic {
    topic: String,
    qos: QoS,
    re: Regex,
}

impl SubscribeTopic {
    /// The regex accepts exactly the topics the filter accepts.
    #[verifier::type_invariant]
    spec fn regex_follows_filter(self) -> bool {
        forall|h: Seq<char>| #[trigger] regex_is_match(self.re, h) == filter_matches(self.topic@, h)
    }

    /// The filter subscribed to.
    pub closed spec fn filter(&self) -> Seq<char> {
        self.topic@
    }

    /// The quality of service asked for.
    pub closed spec fn spec_qos(&self) -> QoS {
        self.qos
    }

    /// Subscribes to `topic` with quality of service `qos`, compiling the anchored
    /// pattern of the filter. Fails only when the regex crate refuses that pattern.
    pub fn new(topic: &str, qos: QoS) -> (r: Result<Self, SubscribeTopicError>)
        ensures
            r matches Ok(s) ==> s.filter() == topic@ && s.spec_qos() == qos,
    {
        broadcast use vstd::string::group_string_axioms;
        let pattern = topic_regex_pattern(topic);
        match compile_regex(pattern.as_str()) {
            Ok(re) => {
                let t = topic.to_string();
                proof {
                    lemma_topic_pattern_denotes(t@);
                }
                assert(pattern@ == topic_pattern(t@));
                Ok(SubscribeTopic { topic: t, qos, re })
            },
            Err(e) => Err(SubscribeTopicError::Regex(e)),
        }
    }

    /// Whether the filter accepts `topic`.
    pub fn matches(&self, topic: &str) -> (b: bool)
        ensures
            b == filter_matches(self.filter(), topic@),
    {
        proof {
            use_type_invariant(self);
        }
        regex_find(&self.re, topic)
    }

    /// The filter subscribed to.
    pub fn topic(&self) -> (t: &str)
        ensures
            t@ == self.filter(),
    {
        self.topic.as_str()
    }

    /// The quality of service asked for.
    pub fn qos(&self) -> (q: QoS)
        ensures
            q == self.spec_qos(),
    {
        self.qos
    }
}

impl Clone for SubscribeTopic {
    /// A copy with the same filter and quality of service.
    fn clone(&self) -> (c: Self)
        ensures
            c.filter() == self.filter(),
            c.spec_qos() == self.spec_qos(),
    {
        proof {
            use_type_invariant(self);
        }
        SubscribeTopic { topic: self.topic.clone(), qos: self.qos, re: clone_regex(&self.re) }
    }
}

} // verus!
