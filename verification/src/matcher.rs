use vstd::prelude::*;
use vstd::string::StringExecFns;
use crate::paths::{basename, last_segment, main_separator};
use crate::similarity::{at_least, folded, letter_similarity, similarity, Ratio};
use crate::text::push_char;

verus! {

/// The characters that mean something in a regular expression.
pub open spec fn is_meta_character(c: char) -> bool {
    c == '\\' || c == '.' || c == '+' || c == '*' || c == '?' || c == '(' || c == ')' || c == '|'
        || c == '[' || c == ']' || c == '{' || c == '}' || c == '^' || c == '$' || c == '#' || c
        == '&' || c == '-' || c == '~'
}

/// `text` with a backslash before each of its meta characters.
pub open spec fn escaped(text: Seq<char>) -> Seq<char>
    decreases text.len(),
{
    if text.len() == 0 {
        Seq::empty()
    } else if is_meta_character(text.last()) {
        escaped(text.drop_last()).push('\\').push(text.last())
    } else {
        escaped(text.drop_last()).push(text.last())
    }
}

/// What the `regex` crate finds for a pattern and a text: whether the
/// pattern, compiled with Unicode on and without regard to case where
/// `ignore_case`, matches somewhere in `text`; `None` where the crate does
/// not accept the pattern.
pub uninterp spec fn regex_verdict(pattern: Seq<char>, ignore_case: bool, text: Seq<char>) -> Option<
    bool,
>;

/// `regex::escape`: the result is `text` with a backslash before each meta
/// character.
#[verifier::external_body]
pub(crate) fn escape(text: &str) -> (r: String)
    ensures
        r@ == escaped(text@),
{
    regex::escape(text)
}

/// `regex::RegexBuilder::build`, then `regex::Regex::is_match` on each text
/// in turn, so that the pattern is compiled once for all of them: the result
/// holds the crate's verdict on the pattern and each text, and is `None`
/// where the crate does not accept the pattern.
#[verifier::external_body]
pub(crate) fn regex_match_all(pattern: &str, ignore_case: bool, texts: &Vec<String>) -> (r: Option<
    Vec<bool>,
>)
    ensures
        match r {
            Some(found) => found.len() == texts.len() && forall|i: int|
                0 <= i < texts.len() ==> regex_verdict(pattern@, ignore_case, texts[i]@) == Some(
                    #[trigger] found[i],
                ),
            None => forall|i: int|
                0 <= i < texts.len() ==> regex_verdict(
                    pattern@,
                    ignore_case,
                    (#[trigger] texts[i])@,
                ) is None,
        },
{
    match regex::RegexBuilder::new(pattern).case_insensitive(ignore_case).unicode(true).build() {
        Ok(re) => Some(texts.iter().map(|text| re.is_match(text)).collect()),
        Err(_) => None,
    }
}

/// The needles as sequences of code points.
pub open spec fn texts(needles: Seq<String>) -> Seq<Seq<char>> {
    needles.map_values(|s: String| s@)
}

/// The pattern for needles that come in this order anywhere in a path:
/// anything, the first needle, anything, the second, and so on.
pub open spec fn anywhere_source(needles: Seq<Seq<char>>) -> Seq<char>
    decreases needles.len(),
{
    if needles.len() == 0 {
        ".*"@
    } else {
        anywhere_source(needles.drop_last()) + escaped(needles.last()) + ".*"@
    }
}

/// Any run of characters that holds no separator.
pub open spec fn within_segment(sep: char) -> Seq<char> {
    "[^"@.push(sep) + "]*"@
}

/// The rest of one segment, one separator, and the start of the next.
pub open spec fn segment_break(sep: char) -> Seq<char> {
    within_segment(sep).push(sep) + within_segment(sep)
}

/// The escaped needles with `joint` between each two.
pub open spec fn joined(needles: Seq<Seq<char>>, joint: Seq<char>) -> Seq<char>
    decreases needles.len(),
{
    if needles.len() == 0 {
        Seq::empty()
    } else if needles.len() == 1 {
        escaped(needles[0])
    } else {
        joined(needles.drop_last(), joint) + joint + escaped(needles.last())
    }
}

/// The pattern for needles that stand in segments of a path that follow one
/// another, the last needle in the last segment.
pub open spec fn consecutive_source(needles: Seq<Seq<char>>, sep: char) -> Seq<char> {
    joined(needles, segment_break(sep)) + within_segment(sep).push('$')
}

/// A pattern for the `regex` crate, with the one flag that this library sets.
#[derive(Debug)]
pub struct Pattern {
    pub source: String,
    pub ignore_case: bool,
}

impl Pattern {
    /// The text of the pattern.
    pub fn as_str(&self) -> (s: &str)
        ensures
            s@ == self.source@,
    {
        self.source.as_str()
    }

    /// For each text, whether the pattern matches somewhere in it; `None`
    /// where the `regex` crate does not accept the pattern. The pattern is
    /// compiled once.
    pub fn matches(&self, texts: &Vec<String>) -> (r: Option<Vec<bool>>)
        ensures
            match r {
                Some(found) => found.len() == texts.len() && forall|i: int|
                    0 <= i < texts.len() ==> regex_verdict(
                        self.source@,
                        self.ignore_case,
                        texts[i]@,
                    ) == Some(#[trigger] found[i]),
                None => forall|i: int|
                    0 <= i < texts.len() ==> regex_verdict(
                        self.source@,
                        self.ignore_case,
                        (#[trigger] texts[i])@,
                    ) is None,
            },
    {
        regex_match_all(self.source.as_str(), self.ignore_case, texts)
    }

    /// Whether the pattern matches somewhere in `text`; `None` where the
    /// `regex` crate does not accept the pattern.
    pub fn is_match(&self, text: &str) -> (r: Option<bool>)
        ensures
            r == regex_verdict(self.source@, self.ignore_case, text@),
    {
        let mut texts: Vec<String> = Vec::new();
        texts.push(String::from_str(text));
        assert(texts[0]@ == text@);
        match self.matches(&texts) {
            Some(found) => Some(found[0]),
            None => None,
        }
    }
}

/// The text of the pattern for an anywhere match.
pub fn anywhere_pattern(needles: &[String]) -> (pattern: String)
    ensures
        pattern@ == anywhere_source(texts(needles@)),
{
    let mut pattern = String::from_str(".*");
    let mut i: usize = 0;
    while i < needles.len()
        invariant
            i <= needles.len(),
            pattern@ == anywhere_source(texts(needles@).take(i as int)),
        decreases needles.len() - i,
    {
        proof {
            assert(texts(needles@).take(i + 1).drop_last() =~= texts(needles@).take(i as int));
        }
        let quoted = escape(needles[i].as_str());
        pattern.append(quoted.as_str());
        pattern.append(".*");
        i += 1;
    }
    assert(texts(needles@).take(i as int) =~= texts(needles@));
    pattern
}

/// The text of the pattern for a consecutive-segment match on paths whose
/// segments are parted by `sep`.
pub fn consecutive_pattern(needles: &[String], sep: char) -> (pattern: String)
    ensures
        pattern@ == consecutive_source(texts(needles@), sep),
{
    let mut seq = String::from_str("[^");
    push_char(&mut seq, sep);
    seq.append("]*");
    let mut end = seq.clone();
    push_char(&mut end, '$');
    let mut sub_seq = seq.clone();
    push_char(&mut sub_seq, sep);
    sub_seq.append(seq.as_str());

    let mut pattern = String::new();
    let mut i: usize = 0;
    while i < needles.len()
        invariant
            i <= needles.len(),
            sub_seq@ == segment_break(sep),
            pattern@ == joined(texts(needles@).take(i as int), sub_seq@),
        decreases needles.len() - i,
    {
        proof {
            assert(texts(needles@).take(i + 1).drop_last() =~= texts(needles@).take(i as int));
        }
        if i > 0 {
            pattern.append(sub_seq.as_str());
        }
        let quoted = escape(needles[i].as_str());
        pattern.append(quoted.as_str());
        i += 1;
    }
    assert(texts(needles@).take(i as int) =~= texts(needles@));
    pattern.append(end.as_str());
    pattern
}

/// The pattern that matches a path in which the needles come in this order,
/// anywhere.
pub fn anywhere_re(needles: &[String], ignore_case: bool) -> (re: Pattern)
    ensures
        re.source@ == anywhere_source(texts(needles@)),
        re.ignore_case == ignore_case,
{
    Pattern { source: anywhere_pattern(needles), ignore_case }
}

/// The pattern that matches a path in which the needles stand in segments
/// that follow one another, the last needle in the last segment. Segments are
/// parted by the separator of the platform: a slash or a backslash.
pub fn consecutive_re(needles: &[String], ignore_case: bool) -> (re: Pattern)
    ensures
        re.source@ == consecutive_source(texts(needles@), '/') || re.source@ == consecutive_source(
            texts(needles@),
            '\\',
        ),
        re.ignore_case == ignore_case,
{
    let sep = main_separator();
    Pattern { source: consecutive_pattern(needles, sep), ignore_case }
}

/// Whether `needle` is close enough to the last segment of `path`: their
/// similarity reaches `threshold`.
pub open spec fn close_enough(
    needle: Seq<char>,
    path: Seq<char>,
    ignore_case: bool,
    threshold: Ratio,
    sep: char,
) -> bool {
    let s = similarity(folded(needle, ignore_case), folded(last_segment(path, sep), ignore_case));
    at_least(s.0, s.1, threshold.num as nat, threshold.den as nat)
}

/// Decides [`close_enough`] for paths whose segments are parted by `sep`.
pub fn match_dist_at(needle: &str, path: &str, ignore_case: bool, threshold: Ratio, sep: char) -> (r:
    bool)
    ensures
        r == close_enough(needle@, path@, ignore_case, threshold, sep),
{
    let seg = basename(path, sep);
    let mut last = String::new();
    let mut i: usize = 0;
    while i < seg.len()
        invariant
            i <= seg.len(),
            last@ == seg@.take(i as int),
        decreases seg.len() - i,
    {
        push_char(&mut last, seg[i]);
        i += 1;
    }
    assert(seg@.take(i as int) =~= seg@);
    letter_similarity(needle, last.as_str(), ignore_case).reaches(&threshold)
}

/// Whether `needle` is close enough to the last segment of `path`, segments
/// being parted by the separator of the platform: a slash or a backslash.
pub fn match_dist(needle: &str, path: &str, ignore_case: bool, threshold: Ratio) -> (r: bool)
    ensures
        r == close_enough(needle@, path@, ignore_case, threshold, '/') || r == close_enough(
            needle@,
            path@,
            ignore_case,
            threshold,
            '\\',
        ),
{
    match_dist_at(needle, path, ignore_case, threshold, main_separator())
}

} // verus!
