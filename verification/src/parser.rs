//! The page markup parser. A page's raw source is scanned line by line:
//! a line that trims to `<question>` opens a question block, which must be
//! closed by a line that trims to `</question>`; everything else accumulates
//! into text blocks. The lines strictly between the delimiters are parsed
//! into one typed question.
//!
//! The whole grammar is stated as spec functions over character sequences,
//! and the executable parser is proved to return exactly what they say.

use vstd::prelude::*;

use crate::questions::PageElementView;
use crate::questions::QuestPage;
use crate::questions::QuestPageElement;
use crate::questions::Question;
use crate::questions::QuestionView;
use crate::questions::ImageRectangle;
use crate::text::find_nl;
use crate::text::line_is_tag;
use crate::text::parse_leading_u32;
use crate::text::source_lines;
use crate::text::spec_leading_u32;
use crate::text::spec_lines;
use crate::text::str_eq;
use crate::text::trim_back;
use crate::text::trim_front;
use crate::text::trim_spec;
use crate::text::trim_start_str;
use crate::text::trim_end_str;
use crate::text::trim_str;

verus! {

/// The ways parsing a page's source can fail.
#[derive(Debug, Clone, Copy, PartialEq, Eq, Structural)]
pub enum PageParseError {
    /// A `<question>` line with no later `</question>` line.
    UnclosedQuestionTag,
    /// A question block with no lines between the delimiters.
    EmptyQuestionTag,
    /// A choice question line that does not start with `+` or `-`, or whose
    /// text after the marker is empty.
    BadChoiceFormat,
    /// Two choice question variants with the same text.
    IdenticalChoices,
    /// A choice question with more than one `+` line.
    MultipleCorrect,
    /// A choice question with no `+` line.
    NoCorrectChoice,
    /// An opened question that is not exactly the `<opened>` line, one
    /// answer line, and the `</opened>` line.
    BadOpenedFormat,
    /// An image question whose `<img />` line is not followed by four
    /// numeric lines.
    BadImageFormat,
    /// A question body whose first line fits no question kind.
    UnknownQuestionType,
}

/// Whether a question body's first line opens a choice question.
pub open spec fn is_choice_start(l: Seq<char>) -> bool {
    l.len() > 0 && (l[0] == '+' || l[0] == '-')
}

/// One step of choice parsing, walking the body lines from index `i` with
/// the variants accepted so far and the index of the `+` line if one was
/// seen. Each line must carry a `+` or `-` marker, at most one line may
/// carry `+`, the text after the marker is trimmed and must be non-empty
/// and new; variant `i` of the result is the text of line `i`.
pub open spec fn spec_parse_choice_from(
    lines: Seq<Seq<char>>,
    i: int,
    seen: Seq<Seq<char>>,
    correct: Option<int>,
) -> Result<QuestionView, PageParseError>
    decreases lines.len() - i,
{
    if i >= lines.len() {
        match correct {
            None => Err(PageParseError::NoCorrectChoice),
            Some(c) => Ok(QuestionView::Choice { variants: seen, correct: c }),
        }
    } else {
        let l = lines[i];
        if !is_choice_start(l) {
            Err(PageParseError::BadChoiceFormat)
        } else if l[0] == '+' && correct is Some {
            Err(PageParseError::MultipleCorrect)
        } else {
            let v = trim_spec(l.drop_first());
            if v.len() == 0 {
                Err(PageParseError::BadChoiceFormat)
            } else if seen.contains(v) {
                Err(PageParseError::IdenticalChoices)
            } else {
                spec_parse_choice_from(
                    lines,
                    i + 1,
                    seen.push(v),
                    if l[0] == '+' {
                        Some(i)
                    } else {
                        correct
                    },
                )
            }
        }
    }
}

/// What parsing a choice question body yields.
pub open spec fn spec_parse_choice(lines: Seq<Seq<char>>) -> Result<
    QuestionView,
    PageParseError,
> {
    spec_parse_choice_from(lines, 0, Seq::empty(), None)
}

/// What parsing an opened question body yields: exactly three lines — the
/// open tag, the answer (stored trimmed), and a line that trims to the
/// close tag.
pub open spec fn spec_parse_opened(lines: Seq<Seq<char>>) -> Result<
    QuestionView,
    PageParseError,
> {
    if lines.len() == 3 && trim_spec(lines[2]) == "</opened>"@ {
        Ok(QuestionView::Opened(trim_spec(lines[1])))
    } else {
        Err(PageParseError::BadOpenedFormat)
    }
}

/// The image source of a trimmed line of the shape
/// `<img src="URL" />`: `<img`, optional whitespace, `src="`, the source,
/// `"`, optional whitespace, `/>`.
pub open spec fn spec_img_src(t: Seq<char>) -> Option<Seq<char>> {
    if t.len() < 4 || t.subrange(0, 4) != "<img"@ {
        None
    } else {
        let s1 = trim_front(t.subrange(4, t.len() as int));
        if s1.len() < 5 || s1.subrange(0, 5) != "src=\""@ {
            None
        } else {
            let s2 = s1.subrange(5, s1.len() as int);
            if s2.len() < 2 || s2.subrange(s2.len() - 2, s2.len() as int) != "/>"@ {
                None
            } else {
                let s3 = trim_back(s2.subrange(0, s2.len() - 2));
                if s3.len() < 1 || s3.last() != '"' {
                    None
                } else {
                    Some(s3.drop_last())
                }
            }
        }
    }
}

/// What parsing an image question body yields: the `<img />` line, then
/// four lines read as `left`, `top`, `width`, `height`. Lines past the
/// fifth are ignored.
pub open spec fn spec_parse_image(lines: Seq<Seq<char>>) -> Result<
    QuestionView,
    PageParseError,
> {
    match spec_img_src(trim_spec(lines[0])) {
        None => Err(PageParseError::UnknownQuestionType),
        Some(src) => {
            if lines.len() < 5 {
                Err(PageParseError::BadImageFormat)
            } else {
                match (
                    spec_leading_u32(lines[1]),
                    spec_leading_u32(lines[2]),
                    spec_leading_u32(lines[3]),
                    spec_leading_u32(lines[4]),
                ) {
                    (Some(left), Some(top), Some(width), Some(height)) => Ok(
                        QuestionView::Image {
                            src,
                            correct_bounds: ImageRectangle { left, top, width, height },
                        },
                    ),
                    _ => Err(PageParseError::BadImageFormat),
                }
            }
        },
    }
}

/// What parsing a question body yields, dispatching on the first line: a
/// `+`/`-` marker opens a choice question, a line that trims to `<opened>`
/// an opened one, an `<img />` line an image one; anything else is unknown,
/// and an empty body is an error of its own.
pub open spec fn spec_parse_question(lines: Seq<Seq<char>>) -> Result<
    QuestionView,
    PageParseError,
> {
    if lines.len() == 0 {
        Err(PageParseError::EmptyQuestionTag)
    } else if is_choice_start(lines[0]) {
        spec_parse_choice(lines)
    } else if trim_spec(lines[0]) == "<opened>"@ {
        spec_parse_opened(lines)
    } else if spec_img_src(trim_spec(lines[0])) is Some {
        spec_parse_image(lines)
    } else {
        Err(PageParseError::UnknownQuestionType)
    }
}

/// The first index at or after `i` whose line trims to `</question>`, or
/// `-1` when there is none.
pub open spec fn find_close(lines: Seq<Seq<char>>, i: int) -> int
    decreases lines.len() - i,
{
    if i >= lines.len() {
        -1
    } else if trim_spec(lines[i]) == "</question>"@ {
        i
    } else {
        find_close(lines, i + 1)
    }
}

proof fn lemma_find_close(lines: Seq<Seq<char>>, i: int, j: int)
    requires
        0 <= i <= j <= lines.len(),
        forall|k: int| i <= k < j ==> trim_spec(#[trigger] lines[k]) != "</question>"@,
        j < lines.len() ==> trim_spec(lines[j as int]) == "</question>"@,
    ensures
        find_close(lines, i) == if j == lines.len() { -1int } else { j },
    decreases j - i,
{
    if i < j {
        lemma_find_close(lines, i + 1, j);
    }
}

/// What parsing the page yields, walking the lines from index `i` with the
/// text accumulated since the last flush and the blocks finished so far.
/// Text lines join with newlines; the text flushes into a block when a
/// question opens and at the end of the source, and an empty accumulation
/// flushes nothing.
pub open spec fn spec_parse_page_lines(
    lines: Seq<Seq<char>>,
    i: int,
    text: Seq<char>,
    acc: Seq<PageElementView>,
) -> Result<Seq<PageElementView>, PageParseError>
    decreases lines.len() - i,
{
    if i >= lines.len() {
        Ok(
            if text.len() > 0 {
                acc.push(PageElementView::Text(text))
            } else {
                acc
            },
        )
    } else if trim_spec(lines[i]) == "<question>"@ {
        let flushed = if text.len() > 0 {
            acc.push(PageElementView::Text(text))
        } else {
            acc
        };
        let j = find_close(lines, i + 1);
        if i + 1 <= j < lines.len() {
            match spec_parse_question(lines.subrange(i + 1, j)) {
                Ok(q) => spec_parse_page_lines(
                    lines,
                    j + 1,
                    Seq::empty(),
                    flushed.push(PageElementView::Question(q)),
                ),
                Err(e) => Err(e),
            }
        } else {
            Err(PageParseError::UnclosedQuestionTag)
        }
    } else {
        let joined = if text.len() > 0 {
            text + seq!['\n'] + lines[i]
        } else {
            lines[i]
        };
        spec_parse_page_lines(lines, i + 1, joined, acc)
    }
}

/// What parsing a page's whole source yields.
pub open spec fn spec_parse_page(s: Seq<char>) -> Result<Seq<PageElementView>, PageParseError> {
    spec_parse_page_lines(spec_lines(s), 0, Seq::empty(), Seq::empty())
}

/// A source of `n` characters splits into at most `n` lines.
proof fn lemma_spec_lines_count(s: Seq<char>)
    ensures
        spec_lines(s).len() <= s.len(),
    decreases s.len(),
{
    if s.len() == 0 {
    } else if 0 <= find_nl(s) < s.len() {
        lemma_spec_lines_count(s.subrange(find_nl(s) + 1, s.len() as int));
    }
}

/// The view of `correct` as choice parsing tracks it.
pub open spec fn opt_index(o: Option<u32>) -> Option<int> {
    match o {
        None => None,
        Some(v) => Some(v as int),
    }
}

/// Whether `s` occurs among the strings of `v`.
fn contains_string(v: &Vec<String>, s: &str) -> (r: bool)
    ensures
        r == v.deep_view().contains(s@),
{
    let mut i: usize = 0;
    while i < v.len()
        invariant
            0 <= i <= v@.len(),
            forall|j: int| 0 <= j < i ==> v.deep_view()[j] != s@,
        decreases v@.len() - i,
    {
        if str_eq(v[i].as_str(), s) {
            proof {
                assert(v.deep_view()[i as int] == s@);
            }
            return true;
        }
        i = i + 1;
    }
    proof {
        assert(!v.deep_view().contains(s@));
    }
    false
}

/// Extracts the image source from a trimmed `<img src="URL" />` line; the
/// executable counterpart of [`spec_img_src`].
fn parse_img_src(t: &str) -> (r: Option<String>)
    ensures
        r matches Some(u) ==> spec_img_src(t@) == Some(u@),
        r is None ==> spec_img_src(t@) is None,
{
    let n = t.unicode_len();
    if n < 4 || !str_eq(t.substring_char(0, 4), "<img") {
        return None;
    }
    let s1 = trim_start_str(t.substring_char(4, n));
    let n1 = s1.unicode_len();
    if n1 < 5 || !str_eq(s1.substring_char(0, 5), "src=\"") {
        return None;
    }
    let s2 = s1.substring_char(5, n1);
    let n2 = s2.unicode_len();
    if n2 < 2 || !str_eq(s2.substring_char(n2 - 2, n2), "/>") {
        return None;
    }
    let s3 = trim_end_str(s2.substring_char(0, n2 - 2));
    let n3 = s3.unicode_len();
    if n3 < 1 || s3.get_char(n3 - 1) != '"' {
        return None;
    }
    proof {
        assert(s3@.subrange(0, n3 - 1) =~= s3@.drop_last());
    }
    Some(String::from_str(s3.substring_char(0, n3 - 1)))
}

/// Parses the lines of one question block. The result is exactly what
/// [`spec_parse_question`] says of the lines, both on success and in the
/// error returned.
pub fn parse_question(lines: &Vec<String>) -> (r: Result<Question, PageParseError>)
    requires
        lines@.len() <= u32::MAX,
    ensures
        r is Ok <==> spec_parse_question(lines.deep_view()) is Ok,
        r matches Ok(q) ==> spec_parse_question(lines.deep_view()) == Ok::<
            QuestionView,
            PageParseError,
        >(q@),
        r matches Err(e) ==> spec_parse_question(lines.deep_view()) == Err::<
            QuestionView,
            PageParseError,
        >(e),
{
    let ghost lv = lines.deep_view();
    let n = lines.len();
    if n == 0 {
        return Err(PageParseError::EmptyQuestionTag);
    }
    let first = &lines[0];
    let first_len = first.as_str().unicode_len();
    let choice_marker = first_len > 0 && (first.as_str().get_char(0) == '+'
        || first.as_str().get_char(0) == '-');
    proof {
        assert(first@ == lv[0]);
        assert(choice_marker == is_choice_start(lv[0]));
    }
    if choice_marker {
        let mut variants: Vec<String> = Vec::new();
        let mut correct: Option<u32> = None;
        let mut i: usize = 0;
        proof {
            assert(variants.deep_view() =~= Seq::<Seq<char>>::empty());
        }
        while i < n
            invariant
                0 <= i <= n == lv.len() == lines@.len() <= u32::MAX,
                lv == lines.deep_view(),
                is_choice_start(lv[0]),
                spec_parse_choice_from(lv, i as int, variants.deep_view(), opt_index(correct))
                    == spec_parse_choice(lv),
                correct matches Some(c) ==> c < i,
            decreases n - i,
        {
            let line = &lines[i];
            let llen = line.as_str().unicode_len();
            proof {
                assert(line@ == lv[i as int]);
            }
            if llen == 0 {
                return Err(PageParseError::BadChoiceFormat);
            }
            let c0 = line.as_str().get_char(0);
            if c0 != '+' && c0 != '-' {
                return Err(PageParseError::BadChoiceFormat);
            }
            if c0 == '+' && correct.is_some() {
                return Err(PageParseError::MultipleCorrect);
            }
            let after = line.as_str().substring_char(1, llen);
            proof {
                assert(after@ =~= lv[i as int].drop_first());
            }
            let v = trim_str(after);
            if v.unicode_len() == 0 {
                return Err(PageParseError::BadChoiceFormat);
            }
            if contains_string(&variants, v) {
                return Err(PageParseError::IdenticalChoices);
            }
            let ghost prev = variants.deep_view();
            variants.push(String::from_str(v));
            if c0 == '+' {
                correct = Some(i as u32);
            }
            proof {
                assert(variants.deep_view() =~= prev.push(v@));
            }
            i = i + 1;
        }
        match correct {
            None => Err(PageParseError::NoCorrectChoice),
            Some(c) => {
                let q = Question::Choice { variants, correct: c };
                proof {
                    assert(spec_parse_choice(lv) == Ok::<QuestionView, PageParseError>(q@));
                }
                Ok(q)
            },
        }
    } else if line_is_tag(first.as_str(), "<opened>") {
        if n != 3 {
            return Err(PageParseError::BadOpenedFormat);
        }
        if !line_is_tag(lines[2].as_str(), "</opened>") {
            return Err(PageParseError::BadOpenedFormat);
        }
        Ok(Question::Opened(String::from_str(trim_str(lines[1].as_str()))))
    } else {
        let trimmed = trim_str(first.as_str());
        match parse_img_src(trimmed) {
            None => Err(PageParseError::UnknownQuestionType),
            Some(src) => {
                if n < 5 {
                    return Err(PageParseError::BadImageFormat);
                }
                let Some(left) = parse_leading_u32(lines[1].as_str()) else {
                    return Err(PageParseError::BadImageFormat);
                };
                let Some(top) = parse_leading_u32(lines[2].as_str()) else {
                    return Err(PageParseError::BadImageFormat);
                };
                let Some(width) = parse_leading_u32(lines[3].as_str()) else {
                    return Err(PageParseError::BadImageFormat);
                };
                let Some(height) = parse_leading_u32(lines[4].as_str()) else {
                    return Err(PageParseError::BadImageFormat);
                };
                Ok(
                    Question::Image {
                        src,
                        correct_bounds: ImageRectangle { left, top, width, height },
                    },
                )
            },
        }
    }
}

/// The text lines `lines` joined onto `text` as the page scanner joins
/// them: a newline between non-empty accumulations, nothing before the
/// first non-empty line.
pub open spec fn spec_join(text: Seq<char>, lines: Seq<Seq<char>>) -> Seq<char>
    decreases lines.len(),
{
    if lines.len() == 0 {
        text
    } else {
        spec_join(
            if text.len() > 0 {
                text + seq!['\n'] + lines[0]
            } else {
                lines[0]
            },
            lines.drop_first(),
        )
    }
}

proof fn lemma_text_only_from(
    lines: Seq<Seq<char>>,
    i: int,
    text: Seq<char>,
    acc: Seq<PageElementView>,
)
    requires
        0 <= i <= lines.len(),
        forall|k: int| i <= k < lines.len() ==> trim_spec(#[trigger] lines[k]) != "<question>"@,
    ensures
        spec_parse_page_lines(lines, i, text, acc) == Ok::<_, PageParseError>(
            {
                let joined = spec_join(text, lines.subrange(i, lines.len() as int));
                if joined.len() > 0 {
                    acc.push(PageElementView::Text(joined))
                } else {
                    acc
                }
            },
        ),
    decreases lines.len() - i,
{
    let rest = lines.subrange(i, lines.len() as int);
    if i == lines.len() {
        assert(spec_join(text, rest) == text);
    } else {
        let joined = if text.len() > 0 {
            text + seq!['\n'] + lines[i]
        } else {
            lines[i]
        };
        lemma_text_only_from(lines, i + 1, joined, acc);
        assert(rest.drop_first() =~= lines.subrange(i + 1, lines.len() as int));
        assert(rest[0] == lines[i]);
    }
}

/// The parser on a source with no question marker: the whole page is one
/// text block holding the lines joined back with newlines, or no block at
/// all when that join is empty.
pub proof fn lemma_text_only_page(s: Seq<char>)
    requires
        forall|k: int|
            0 <= k < spec_lines(s).len() ==> trim_spec(#[trigger] spec_lines(s)[k])
                != "<question>"@,
    ensures
        spec_parse_page(s) == Ok::<_, PageParseError>(
            {
                let joined = spec_join(Seq::empty(), spec_lines(s));
                if joined.len() > 0 {
                    seq![PageElementView::Text(joined)]
                } else {
                    Seq::<PageElementView>::empty()
                }
            },
        ),
{
    let lines = spec_lines(s);
    lemma_text_only_from(lines, 0, Seq::empty(), Seq::empty());
    assert(lines.subrange(0, lines.len() as int) =~= lines);
    let joined = spec_join(Seq::empty(), lines);
    if joined.len() > 0 {
        assert(Seq::<PageElementView>::empty().push(PageElementView::Text(joined))
            =~= seq![PageElementView::Text(joined)]);
    }
}

/// The trimmed texts after the `+`/`-` markers, in line order: the variant
/// list a well-formed choice question parses to.
pub open spec fn choice_texts(lines: Seq<Seq<char>>) -> Seq<Seq<char>> {
    Seq::new(lines.len(), |k: int| trim_spec(lines[k].drop_first()))
}

/// The first index at or after `i` whose line is marked `+`, or `-1` when
/// there is none.
pub open spec fn first_plus(lines: Seq<Seq<char>>, i: int) -> int
    decreases lines.len() - i,
{
    if i >= lines.len() {
        -1
    } else if lines[i].len() > 0 && lines[i][0] == '+' {
        i
    } else {
        first_plus(lines, i + 1)
    }
}

/// Whether every line of a choice body carries a marker and non-empty,
/// pairwise-distinct variant text.
pub open spec fn well_formed_choice_lines(lines: Seq<Seq<char>>) -> bool {
    &&& forall|k: int| 0 <= k < lines.len() ==> is_choice_start(#[trigger] lines[k])
    &&& forall|k: int|
        0 <= k < lines.len() ==> trim_spec(#[trigger] lines[k].drop_first()).len() > 0
    &&& forall|k1: int, k2: int|
        0 <= k1 < k2 < lines.len() ==> trim_spec(lines[k1].drop_first()) != trim_spec(
            lines[k2].drop_first(),
        )
}

proof fn lemma_choice_run(lines: Seq<Seq<char>>, i: int, correct: Option<int>)
    requires
        0 <= i <= lines.len(),
        well_formed_choice_lines(lines),
        correct matches Some(c) ==> 0 <= c < i,
    ensures
        spec_parse_choice_from(lines, i, choice_texts(lines).subrange(0, i), correct) == (
        match correct {
            Some(c) => if first_plus(lines, i) == -1 {
                Ok::<QuestionView, PageParseError>(
                    QuestionView::Choice { variants: choice_texts(lines), correct: c },
                )
            } else {
                Err(PageParseError::MultipleCorrect)
            },
            None => {
                let p1 = first_plus(lines, i);
                if p1 == -1 {
                    Err(PageParseError::NoCorrectChoice)
                } else if first_plus(lines, p1 + 1) == -1 {
                    Ok(QuestionView::Choice { variants: choice_texts(lines), correct: p1 })
                } else {
                    Err(PageParseError::MultipleCorrect)
                }
            },
        }),
    decreases lines.len() - i,
{
    let seen = choice_texts(lines).subrange(0, i);
    if i == lines.len() {
        assert(choice_texts(lines).subrange(0, i) =~= choice_texts(lines));
    } else {
        let l = lines[i];
        let v = trim_spec(l.drop_first());
        assert(is_choice_start(l));
        assert(v.len() > 0);
        assert(!seen.contains(v)) by {
            if seen.contains(v) {
                let k = choose|k: int| 0 <= k < seen.len() && seen[k] == v;
                assert(trim_spec(lines[k].drop_first()) == trim_spec(lines[i].drop_first()));
            }
        }
        assert(seen.push(v) =~= choice_texts(lines).subrange(0, i + 1));
        if l[0] == '+' {
            match correct {
                Some(_) => {
                    assert(first_plus(lines, i) == i);
                },
                None => {
                    lemma_choice_run(lines, i + 1, Some(i));
                    assert(first_plus(lines, i) == i);
                },
            }
        } else {
            lemma_choice_run(lines, i + 1, correct);
            assert(first_plus(lines, i) == first_plus(lines, i + 1));
        }
    }
}

/// Choice exclusivity: on marker-prefixed lines with non-empty, pairwise
/// distinct variant texts, the question parser returns the variants in line
/// order with `correct` the index of the single `+` line; with no `+` line
/// it fails with `NoCorrectChoice`, and with a second `+` line it fails
/// with `MultipleCorrect`.
pub proof fn lemma_choice_exclusivity(lines: Seq<Seq<char>>)
    requires
        lines.len() > 0,
        well_formed_choice_lines(lines),
    ensures
        first_plus(lines, 0) == -1 ==> spec_parse_question(lines) == Err::<
            QuestionView,
            PageParseError,
        >(PageParseError::NoCorrectChoice),
        first_plus(lines, 0) >= 0 && first_plus(lines, first_plus(lines, 0) + 1) == -1
            ==> spec_parse_question(lines) == Ok::<QuestionView, PageParseError>(
            QuestionView::Choice {
                variants: choice_texts(lines),
                correct: first_plus(lines, 0),
            },
        ),
        first_plus(lines, 0) >= 0 && first_plus(lines, first_plus(lines, 0) + 1) >= 0
            ==> spec_parse_question(lines) == Err::<QuestionView, PageParseError>(
            PageParseError::MultipleCorrect,
        ),
{
    lemma_choice_run(lines, 0, None);
    assert(choice_texts(lines).subrange(0, 0) =~= Seq::<Seq<char>>::empty());
    assert(is_choice_start(lines[0]));
}

/// A choice body whose lines all carry markers and non-empty texts, with at
/// most one `+` line, fails with `IdenticalChoices` as soon as two variant
/// texts coincide.
pub proof fn lemma_identical_choices(lines: Seq<Seq<char>>)
    requires
        lines.len() > 0,
        forall|k: int| 0 <= k < lines.len() ==> is_choice_start(#[trigger] lines[k]),
        forall|k: int|
            0 <= k < lines.len() ==> trim_spec(#[trigger] lines[k].drop_first()).len() > 0,
        first_plus(lines, 0) == -1 || first_plus(lines, first_plus(lines, 0) + 1) == -1,
        exists|k1: int, k2: int|
            0 <= k1 < k2 < lines.len() && trim_spec(lines[k1].drop_first()) == trim_spec(
                lines[k2].drop_first(),
            ),
    ensures
        spec_parse_question(lines) == Err::<QuestionView, PageParseError>(
            PageParseError::IdenticalChoices,
        ),
{
    lemma_identical_run(lines, 0, None);
    assert(choice_texts(lines).subrange(0, 0) =~= Seq::<Seq<char>>::empty());
    assert(is_choice_start(lines[0]));
}

proof fn lemma_identical_run(lines: Seq<Seq<char>>, i: int, correct: Option<int>)
    requires
        0 <= i <= lines.len(),
        forall|k: int| 0 <= k < lines.len() ==> is_choice_start(#[trigger] lines[k]),
        forall|k: int|
            0 <= k < lines.len() ==> trim_spec(#[trigger] lines[k].drop_first()).len() > 0,
        first_plus(lines, 0) == -1 || first_plus(lines, first_plus(lines, 0) + 1) == -1,
        correct is Some <==> (first_plus(lines, 0) >= 0 && first_plus(lines, 0) < i),
        forall|k1: int, k2: int|
            0 <= k1 < k2 < i ==> trim_spec(lines[k1].drop_first()) != trim_spec(
                lines[k2].drop_first(),
            ),
        exists|k1: int, k2: int|
            0 <= k1 < k2 < lines.len() && trim_spec(lines[k1].drop_first()) == trim_spec(
                lines[k2].drop_first(),
            ),
    ensures
        spec_parse_choice_from(lines, i, choice_texts(lines).subrange(0, i), correct) == Err::<
            QuestionView,
            PageParseError,
        >(PageParseError::IdenticalChoices),
    decreases lines.len() - i,
{
    let seen = choice_texts(lines).subrange(0, i);
    assert(i < lines.len()) by {
        if i == lines.len() {
            let (k1, k2) = choose|k1: int, k2: int|
                0 <= k1 < k2 < lines.len() && trim_spec(lines[k1].drop_first()) == trim_spec(
                    lines[k2].drop_first(),
                );
            assert(trim_spec(lines[k1].drop_first()) != trim_spec(lines[k2].drop_first()));
        }
    }
    let l = lines[i];
    let v = trim_spec(l.drop_first());
    if l[0] == '+' && correct is Some {
        assert(first_plus(lines, 0) < i && lines[first_plus(lines, 0)][0] == '+') by {
            lemma_first_plus_hit(lines, 0);
        }
        assert(first_plus(lines, first_plus(lines, 0) + 1) >= 0) by {
            lemma_first_plus_lower(lines, first_plus(lines, 0) + 1, i);
        }
        assert(false);
    }
    if seen.contains(v) {
    } else {
        assert forall|k: int| 0 <= k < i implies trim_spec(
            #[trigger] lines[k].drop_first(),
        ) != v by {
            assert(seen[k] == trim_spec(lines[k].drop_first()));
        };
        assert(seen.push(v) =~= choice_texts(lines).subrange(0, i + 1));
        let correct2 = if l[0] == '+' {
            Some(i)
        } else {
            correct
        };
        assert(correct2 is Some <==> (first_plus(lines, 0) >= 0 && first_plus(lines, 0) < i
            + 1)) by {
            if l[0] == '+' {
                lemma_first_plus_lower(lines, 0, i);
            } else {
                if correct is None && first_plus(lines, 0) >= 0 && first_plus(lines, 0) < i + 1 {
                    lemma_first_plus_hit(lines, 0);
                }
            }
        }
        lemma_identical_run(lines, i + 1, correct2);
    }
}

/// When `first_plus` finds an index, that line is marked `+`.
proof fn lemma_first_plus_hit(lines: Seq<Seq<char>>, i: int)
    requires
        0 <= i <= lines.len(),
        first_plus(lines, i) >= 0,
    ensures
        i <= first_plus(lines, i) < lines.len(),
        lines[first_plus(lines, i)].len() > 0 && lines[first_plus(lines, i)][0] == '+',
    decreases lines.len() - i,
{
    if i < lines.len() && !(lines[i].len() > 0 && lines[i][0] == '+') {
        lemma_first_plus_hit(lines, i + 1);
    }
}

/// A `+` line at or after `i` bounds `first_plus(lines, i)` from above.
proof fn lemma_first_plus_lower(lines: Seq<Seq<char>>, i: int, w: int)
    requires
        0 <= i <= lines.len(),
        i <= w < lines.len(),
        lines[w].len() > 0 && lines[w][0] == '+',
    ensures
        0 <= first_plus(lines, i) <= w,
    decreases lines.len() - i,
{
    if i < lines.len() && !(lines[i].len() > 0 && lines[i][0] == '+') {
        lemma_first_plus_lower(lines, i + 1, w);
    }
}

/// Parses a page's raw source into its ordered blocks of text and
/// questions. The result is exactly what [`spec_parse_page`] says of the
/// source, both on success and in the error returned. The length bound is a
/// machine limit: question indices are 32-bit.
pub fn parse_quest_page(source: &str) -> (r: Result<QuestPage, PageParseError>)
    requires
        source@.len() <= u32::MAX,
    ensures
        r is Ok <==> spec_parse_page(source@) is Ok,
        r matches Ok(page) ==> spec_parse_page(source@) == Ok::<_, PageParseError>(
            page.deep_view(),
        ),
        r matches Err(e) ==> spec_parse_page(source@) == Err::<Seq<PageElementView>, _>(e),
{
    let lines = source_lines(source);
    let ghost lv = lines.deep_view();
    proof {
        lemma_spec_lines_count(source@);
    }
    let n = lines.len();
    let mut res: Vec<QuestPageElement> = Vec::new();
    let mut text = String::new();
    let mut i: usize = 0;
    proof {
        assert(res.deep_view() =~= Seq::<PageElementView>::empty());
    }
    while i < n
        invariant
            0 <= i <= n == lv.len(),
            lv == lines.deep_view(),
            lv == spec_lines(source@),
            lv.len() <= source@.len() <= u32::MAX,
            spec_parse_page_lines(lv, i as int, text@, res.deep_view()) == spec_parse_page(
                source@,
            ),
        decreases n - i,
    {
        if line_is_tag(lines[i].as_str(), "<question>") {
            let ghost old_text = text@;
            let ghost old_acc = res.deep_view();
            if text.unicode_len() > 0 {
                let ghost prev = res.deep_view();
                let ghost tv = text@;
                res.push(QuestPageElement::Text(text));
                text = String::new();
                proof {
                    assert(res.deep_view() =~= prev.push(PageElementView::Text(tv)));
                }
            }
            let ghost flushed = res.deep_view();
            proof {
                assert(flushed == if old_text.len() > 0 {
                    old_acc.push(PageElementView::Text(old_text))
                } else {
                    old_acc
                });
            }
            let mut j: usize = i + 1;
            while j < n && !line_is_tag(lines[j].as_str(), "</question>")
                invariant
                    i + 1 <= j <= n == lv.len(),
                    lv == lines.deep_view(),
                    forall|k: int|
                        i + 1 <= k < j ==> trim_spec(#[trigger] lv[k]) != "</question>"@,
                decreases n - j,
            {
                j = j + 1;
            }
            proof {
                lemma_find_close(lv, i + 1, j as int);
            }
            if j == n {
                return Err(PageParseError::UnclosedQuestionTag);
            }
            let mut body: Vec<String> = Vec::new();
            let mut k: usize = i + 1;
            proof {
                assert(body.deep_view() =~= lv.subrange(i + 1, i + 1));
            }
            while k < j
                invariant
                    i + 1 <= k <= j < n == lv.len(),
                    lv == lines.deep_view(),
                    body.deep_view() == lv.subrange(i + 1, k as int),
                decreases j - k,
            {
                let ghost prev = body.deep_view();
                body.push(lines[k].clone());
                proof {
                    assert(body.deep_view() =~= prev.push(lv[k as int]));
                    assert(prev.push(lv[k as int]) =~= lv.subrange(i + 1, k + 1));
                }
                k = k + 1;
            }
            match parse_question(&body) {
                Err(e) => {
                    return Err(e);
                },
                Ok(q) => {
                    let ghost prev = res.deep_view();
                    let ghost qv = q@;
                    res.push(QuestPageElement::Question(q));
                    proof {
                        assert(res.deep_view() =~= prev.push(PageElementView::Question(qv)));
                        assert(text@ =~= Seq::<char>::empty());
                    }
                },
            }
            i = j + 1;
        } else {
            let ghost old_text = text@;
            proof {
                reveal_strlit("\n");
                assert(("\n")@ =~= seq!['\n']);
            }
            if text.unicode_len() > 0 {
                text.append("\n");
            }
            text.append(lines[i].as_str());
            proof {
                if old_text.len() > 0 {
                    assert(text@ =~= old_text + seq!['\n'] + lv[i as int]);
                } else {
                    assert(text@ =~= lv[i as int]);
                }
            }
            i = i + 1;
        }
    }
    if text.unicode_len() > 0 {
        let ghost prev = res.deep_view();
        let ghost tv = text@;
        res.push(QuestPageElement::Text(text));
        proof {
            assert(res.deep_view() =~= prev.push(PageElementView::Text(tv)));
        }
    }
    Ok(res)
}

} // verus!
