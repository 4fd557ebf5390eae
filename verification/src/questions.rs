//! The question model: the shapes a parsed question can take, the
//! player-safe projection of a question, and answer grading.

use vstd::prelude::*;

verus! {

/// The rectangle of an image question that counts as the correct region.
/// A submitted point hits it when it lies within
/// `[left, left + width] x [top, top + height]`, all four edges inclusive.
#[derive(Debug, Clone, Copy, PartialEq, Eq, Structural)]
pub struct ImageRectangle {
    pub left: u32,
    pub top: u32,
    pub width: u32,
    pub height: u32,
}

impl ImageRectangle {
    /// Whether the point `(left, top)` lies in the correct region, inclusive
    /// on all edges. Points above or to the left of the origin are misses;
    /// the checked subtractions keep them from wrapping.
    pub fn contains(&self, left: u32, top: u32) -> (r: bool)
        ensures
            r == (self.left <= left <= self.left + self.width
                && self.top <= top <= self.top + self.height),
    {
        let Some(dx) = left.checked_sub(self.left) else {
            return false;
        };
        let Some(dy) = top.checked_sub(self.top) else {
            return false;
        };

        dx <= self.width && dy <= self.height
    }
}

/// A question as its author sees it, correct-answer data included. A value
/// of this shape is never sent to a player; players get the [`AskQuestion`]
/// projection instead.
#[derive(Debug, Clone, PartialEq, Eq)]
pub enum Question {
    /// Free-text answer, graded by exact string match.
    Opened(String),
    /// One correct option; `correct` indexes into `variants`.
    Choice { variants: Vec<String>, correct: u32 },
    /// A set of correct options, graded by exact set equality.
    MultipleChoice { variants: Vec<String>, correct: Vec<u32> },
    /// A point-in-rectangle question over an image.
    Image { src: String, correct_bounds: ImageRectangle },
}

/// The mathematical shape of a [`Question`]: its strings as character
/// sequences.
pub enum QuestionView {
    Opened(Seq<char>),
    Choice { variants: Seq<Seq<char>>, correct: int },
    MultipleChoice { variants: Seq<Seq<char>>, correct: Seq<u32> },
    Image { src: Seq<char>, correct_bounds: ImageRectangle },
}

impl View for Question {
    type V = QuestionView;

    open spec fn view(&self) -> QuestionView {
        match self {
            Question::Opened(s) => QuestionView::Opened(s@),
            Question::Choice { variants, correct } => QuestionView::Choice {
                variants: variants.deep_view(),
                correct: *correct as int,
            },
            Question::MultipleChoice { variants, correct } => QuestionView::MultipleChoice {
                variants: variants.deep_view(),
                correct: correct@,
            },
            Question::Image { src, correct_bounds } => QuestionView::Image {
                src: src@,
                correct_bounds: *correct_bounds,
            },
        }
    }
}

impl DeepView for Question {
    type V = QuestionView;

    open spec fn deep_view(&self) -> QuestionView {
        self.view()
    }
}

/// A question as a player sees it: the same variants and image source, with
/// every piece of correct-answer data dropped.
#[derive(Debug, Clone, PartialEq, Eq)]
pub enum AskQuestion {
    Opened,
    Choice { variants: Vec<String> },
    MultipleChoice { variants: Vec<String> },
    Image { src: String },
}

/// The mathematical shape of an [`AskQuestion`].
pub enum AskQuestionView {
    Opened,
    Choice { variants: Seq<Seq<char>> },
    MultipleChoice { variants: Seq<Seq<char>> },
    Image { src: Seq<char> },
}

impl View for AskQuestion {
    type V = AskQuestionView;

    open spec fn view(&self) -> AskQuestionView {
        match self {
            AskQuestion::Opened => AskQuestionView::Opened,
            AskQuestion::Choice { variants } => AskQuestionView::Choice {
                variants: variants.deep_view(),
            },
            AskQuestion::MultipleChoice { variants } => AskQuestionView::MultipleChoice {
                variants: variants.deep_view(),
            },
            AskQuestion::Image { src } => AskQuestionView::Image { src: src@ },
        }
    }
}

impl DeepView for AskQuestion {
    type V = AskQuestionView;

    open spec fn deep_view(&self) -> AskQuestionView {
        self.view()
    }
}

/// A player's submitted answer to one question.
#[derive(Debug, Clone, PartialEq, Eq)]
pub enum Answer {
    Opened(String),
    Choice(u32),
    MultipleChoice(Vec<u32>),
    Image { left: u32, top: u32 },
}

/// The mathematical shape of an [`Answer`].
pub enum AnswerView {
    Opened(Seq<char>),
    Choice(u32),
    MultipleChoice(Seq<u32>),
    Image { left: u32, top: u32 },
}

impl View for Answer {
    type V = AnswerView;

    open spec fn view(&self) -> AnswerView {
        match self {
            Answer::Opened(s) => AnswerView::Opened(s@),
            Answer::Choice(i) => AnswerView::Choice(*i),
            Answer::MultipleChoice(v) => AnswerView::MultipleChoice(v@),
            Answer::Image { left, top } => AnswerView::Image { left: *left, top: *top },
        }
    }
}

impl DeepView for Answer {
    type V = AnswerView;

    open spec fn deep_view(&self) -> AnswerView {
        self.view()
    }
}

/// One block of a parsed page: a run of literal text, or a question.
#[derive(Debug, Clone, PartialEq, Eq)]
pub enum QuestPageElement {
    Text(String),
    Question(Question),
}

/// The mathematical shape of a [`QuestPageElement`].
pub enum PageElementView {
    Text(Seq<char>),
    Question(QuestionView),
}

impl View for QuestPageElement {
    type V = PageElementView;

    open spec fn view(&self) -> PageElementView {
        match self {
            QuestPageElement::Text(s) => PageElementView::Text(s@),
            QuestPageElement::Question(q) => PageElementView::Question(q@),
        }
    }
}

impl DeepView for QuestPageElement {
    type V = PageElementView;

    open spec fn deep_view(&self) -> PageElementView {
        self.view()
    }
}

/// A parsed page: its blocks in source order.
pub type QuestPage = Vec<QuestPageElement>;

/// One block of a page as a player sees it.
#[derive(Debug, Clone, PartialEq, Eq)]
pub enum AskQuestPageElement {
    Text(String),
    Question(AskQuestion),
}

/// The mathematical shape of an [`AskQuestPageElement`].
pub enum AskPageElementView {
    Text(Seq<char>),
    Question(AskQuestionView),
}

impl View for AskQuestPageElement {
    type V = AskPageElementView;

    open spec fn view(&self) -> AskPageElementView {
        match self {
            AskQuestPageElement::Text(s) => AskPageElementView::Text(s@),
            AskQuestPageElement::Question(q) => AskPageElementView::Question(q@),
        }
    }
}

impl DeepView for AskQuestPageElement {
    type V = AskPageElementView;

    open spec fn deep_view(&self) -> AskPageElementView {
        self.view()
    }
}

/// A page as a player sees it.
pub type AskQuestPage = Vec<AskQuestPageElement>;

/// The error of grading an answer whose shape does not match the question's
/// kind.
#[derive(Debug, Clone, Copy, PartialEq, Eq, Structural)]
pub struct WrongQuestionType;

/// Whether an answer has the shape the question calls for.
pub open spec fn shapes_match(q: QuestionView, a: AnswerView) -> bool {
    match (q, a) {
        (QuestionView::Opened(_), AnswerView::Opened(_)) => true,
        (QuestionView::Choice { .. }, AnswerView::Choice(_)) => true,
        (QuestionView::MultipleChoice { .. }, AnswerView::MultipleChoice(_)) => true,
        (QuestionView::Image { .. }, AnswerView::Image { .. }) => true,
        _ => false,
    }
}

/// Whether a shape-matching answer is the correct one: exact string match
/// for an opened question, the correct index for a choice, set equality of
/// the chosen indices for a multiple choice, and an inclusive
/// point-in-rectangle test for an image.
pub open spec fn answer_correct(q: QuestionView, a: AnswerView) -> bool {
    match (q, a) {
        (QuestionView::Opened(correct), AnswerView::Opened(answered)) => correct == answered,
        (QuestionView::Choice { correct, .. }, AnswerView::Choice(answered)) => correct
            == answered as int,
        (
            QuestionView::MultipleChoice { correct, .. },
            AnswerView::MultipleChoice(answered),
        ) => correct.to_set() == answered.to_set(),
        (
            QuestionView::Image { correct_bounds, .. },
            AnswerView::Image { left, top },
        ) => correct_bounds.left <= left <= correct_bounds.left + correct_bounds.width
            && correct_bounds.top <= top <= correct_bounds.top + correct_bounds.height,
        _ => false,
    }
}

/// Whether `x` occurs in `v`.
fn contains_u32(v: &Vec<u32>, x: u32) -> (r: bool)
    ensures
        r == v@.contains(x),
{
    let mut i: usize = 0;
    while i < v.len()
        invariant
            0 <= i <= v@.len(),
            forall|j: int| 0 <= j < i ==> v@[j] != x,
        decreases v@.len() - i,
    {
        if v[i] == x {
            return true;
        }
        i = i + 1;
    }
    false
}

/// Whether `a` and `b` hold the same set of indices, order and repetition
/// disregarded.
fn same_index_set(a: &Vec<u32>, b: &Vec<u32>) -> (r: bool)
    ensures
        r == (a@.to_set() == b@.to_set()),
{
    let mut i: usize = 0;
    while i < a.len()
        invariant
            0 <= i <= a@.len(),
            forall|j: int| 0 <= j < i ==> b@.contains(#[trigger] a@[j]),
        decreases a@.len() - i,
    {
        if !contains_u32(b, a[i]) {
            proof {
                assert(a@.to_set().contains(a@[i as int]));
                assert(!b@.to_set().contains(a@[i as int]));
            }
            return false;
        }
        i = i + 1;
    }
    let mut k: usize = 0;
    while k < b.len()
        invariant
            0 <= k <= b@.len(),
            forall|j: int| 0 <= j < a@.len() ==> b@.contains(#[trigger] a@[j]),
            forall|j: int| 0 <= j < k ==> a@.contains(#[trigger] b@[j]),
        decreases b@.len() - k,
    {
        if !contains_u32(a, b[k]) {
            proof {
                assert(b@.to_set().contains(b@[k as int]));
                assert(!a@.to_set().contains(b@[k as int]));
            }
            return false;
        }
        k = k + 1;
    }
    proof {
        assert(a@.to_set() =~= b@.to_set());
    }
    true
}

/// Grades `answer` against `question`. Fails exactly when the answer's
/// shape does not match the question's kind; otherwise says whether the
/// answer is the correct one. Grading is a pure function of the two values.
pub fn check_answer(question: &Question, answer: &Answer) -> (r: Result<
    bool,
    WrongQuestionType,
>)
    ensures
        r is Ok <==> shapes_match(question@, answer@),
        r matches Ok(b) ==> b == answer_correct(question@, answer@),
{
    match (question, answer) {
        (Question::Opened(correct), Answer::Opened(answered)) => Ok(
            crate::text::str_eq(correct.as_str(), answered.as_str()),
        ),
        (Question::Choice { variants: _, correct }, Answer::Choice(answered)) => Ok(
            *correct == *answered,
        ),
        (
            Question::MultipleChoice { variants: _, correct },
            Answer::MultipleChoice(answered),
        ) => Ok(same_index_set(correct, answered)),
        (
            Question::Image { src: _, correct_bounds },
            Answer::Image { left, top },
        ) => Ok(correct_bounds.contains(*left, *top)),
        _ => Err(WrongQuestionType),
    }
}

/// The player-safe shape of a question: correct-answer data dropped,
/// variants and image source kept.
pub open spec fn ask_view(q: QuestionView) -> AskQuestionView {
    match q {
        QuestionView::Opened(_) => AskQuestionView::Opened,
        QuestionView::Choice { variants, .. } => AskQuestionView::Choice { variants },
        QuestionView::MultipleChoice { variants, .. } => AskQuestionView::MultipleChoice {
            variants,
        },
        QuestionView::Image { src, .. } => AskQuestionView::Image { src },
    }
}

/// The player-safe shape of one page block.
pub open spec fn ask_element_view(e: PageElementView) -> AskPageElementView {
    match e {
        PageElementView::Text(t) => AskPageElementView::Text(t),
        PageElementView::Question(q) => AskPageElementView::Question(ask_view(q)),
    }
}

/// The player-safe shape of a whole page.
pub open spec fn ask_page_view(page: Seq<PageElementView>) -> Seq<AskPageElementView> {
    page.map_values(|e: PageElementView| ask_element_view(e))
}

/// Copies a list of variant strings.
fn clone_strings(v: &Vec<String>) -> (r: Vec<String>)
    ensures
        r.deep_view() == v.deep_view(),
{
    let mut out: Vec<String> = Vec::new();
    let mut i: usize = 0;
    while i < v.len()
        invariant
            0 <= i <= v@.len(),
            out.deep_view() == v.deep_view().subrange(0, i as int),
        decreases v@.len() - i,
    {
        let ghost prev = out.deep_view();
        out.push(v[i].clone());
        proof {
            assert(out.deep_view() =~= prev.push(v.deep_view()[i as int]));
            assert(prev.push(v.deep_view()[i as int])
                =~= v.deep_view().subrange(0, i + 1));
        }
        i = i + 1;
    }
    proof {
        assert(v.deep_view().subrange(0, v.deep_view().len() as int) =~= v.deep_view());
    }
    out
}

/// Projects a question to what a player may see. The projection only
/// forgets: the correct answer cannot be recovered from the result.
pub fn ask_question(question: &Question) -> (r: AskQuestion)
    ensures
        r@ == ask_view(question@),
{
    match question {
        Question::Opened(_) => AskQuestion::Opened,
        Question::Choice { variants, correct: _ } => AskQuestion::Choice {
            variants: clone_strings(variants),
        },
        Question::MultipleChoice { variants, correct: _ } => AskQuestion::MultipleChoice {
            variants: clone_strings(variants),
        },
        Question::Image { src, correct_bounds: _ } => AskQuestion::Image { src: src.clone() },
    }
}

/// Projects a parsed page to what a player may see, block by block.
pub fn ask_page(page: &QuestPage) -> (r: AskQuestPage)
    ensures
        r.deep_view() == ask_page_view(page.deep_view()),
{
    let mut out: AskQuestPage = Vec::new();
    let mut i: usize = 0;
    while i < page.len()
        invariant
            0 <= i <= page@.len(),
            out.deep_view() == ask_page_view(page.deep_view().subrange(0, i as int)),
        decreases page@.len() - i,
    {
        let element = match &page[i] {
            QuestPageElement::Text(t) => AskQuestPageElement::Text(t.clone()),
            QuestPageElement::Question(q) => AskQuestPageElement::Question(ask_question(q)),
        };
        let ghost prev = out.deep_view();
        let ghost ev = element@;
        out.push(element);
        proof {
            assert(out.deep_view() =~= prev.push(ev));
            assert(prev.push(ev) =~= ask_page_view(page.deep_view().subrange(0, i + 1)));
        }
        i = i + 1;
    }
    proof {
        assert(page.deep_view().subrange(0, page.deep_view().len() as int)
            =~= page.deep_view());
    }
    out
}

} // verus!
