//! Provider-neutral, durable user-question contracts: the request validator
//! and the pure interaction state machine (draft, dismiss, resolve, cancel).

use vstd::prelude::*;
use crate::text::{is_blank, trim, dec, opt_view, chars_of, is_blank_str, trimmed, decimal, concat3, strs_view, copy_opt, opt_eq, strs_eq, copy_strs, owned};

verus! {

pub const ASK_USER_QUESTION_TOOL: &'static str = "ask_user_question";
pub const MAX_QUESTIONS: usize = 3;
pub const MAX_OPTIONS_PER_QUESTION: usize = 3;
pub const MAX_ID_CHARS: usize = 64;
pub const MAX_HEADER_CHARS: usize = 40;
pub const MAX_QUESTION_CHARS: usize = 1000;
pub const MAX_LABEL_CHARS: usize = 80;
pub const MAX_DESCRIPTION_CHARS: usize = 500;
pub const MAX_CUSTOM_ANSWER_CHARS: usize = 8192;

/// A question without explicit `allowCustom` accepts free text.
pub fn default_allow_custom() -> (r: bool)
    ensures
        r,
{
    true
}

/// Where an accepted answer remains visible after the current tool result.
#[derive(Clone, Copy, Debug, PartialEq, Eq, Structural)]
pub enum AnswerDestination {
    Context,
    AgentMarkdown,
}

impl Default for AnswerDestination {
    fn default() -> (r: Self)
        ensures
            r == AnswerDestination::Context,
    {
        AnswerDestination::Context
    }
}

#[derive(Clone, Debug, PartialEq, Eq)]
pub struct QuestionOption {
    pub id: String,
    pub label: String,
    pub description: Option<String>,
    pub recommended: bool,
}

pub struct OptionView {
    pub id: Seq<char>,
    pub label: Seq<char>,
    pub description: Option<Seq<char>>,
    pub recommended: bool,
}

impl View for QuestionOption {
    type V = OptionView;

    open spec fn view(&self) -> OptionView {
        OptionView {
            id: self.id@,
            label: self.label@,
            description: opt_view(self.description),
            recommended: self.recommended,
        }
    }
}

#[derive(Clone, Debug, PartialEq, Eq)]
pub struct QuestionSpec {
    pub id: String,
    pub header: String,
    pub question: String,
    /// Zero to three finite choices; a free-text question has none and
    /// allows custom text.
    pub options: Vec<QuestionOption>,
    pub allow_custom: bool,
    pub destination: AnswerDestination,
}

pub struct SpecView {
    pub id: Seq<char>,
    pub header: Seq<char>,
    pub question: Seq<char>,
    pub options: Seq<OptionView>,
    pub allow_custom: bool,
    pub destination: AnswerDestination,
}

impl View for QuestionSpec {
    type V = SpecView;

    open spec fn view(&self) -> SpecView {
        SpecView {
            id: self.id@,
            header: self.header@,
            question: self.question@,
            options: self.options@.map_values(|o: QuestionOption| o@),
            allow_custom: self.allow_custom,
            destination: self.destination,
        }
    }
}

#[derive(Clone, Debug, PartialEq, Eq)]
pub struct AskUserQuestionRequest {
    pub questions: Vec<QuestionSpec>,
}

impl View for AskUserQuestionRequest {
    type V = Seq<SpecView>;

    open spec fn view(&self) -> Seq<SpecView> {
        self.questions@.map_values(|q: QuestionSpec| q@)
    }
}

#[derive(Clone, Debug, PartialEq, Eq)]
pub enum QuestionValidationError {
    QuestionCount { actual: usize },
    OptionCount { question_id: String, actual: usize },
    DuplicateQuestionId(String),
    DuplicateOptionId { question_id: String, option_id: String },
    DuplicateOptionLabel { question_id: String, label: String },
    NoAnswerMode(String),
    MultipleRecommended(String),
    InvalidText { field: String, max: usize },
    InvalidIdentifier { field: String },
}

pub enum ValidationErrorView {
    QuestionCount { actual: nat },
    OptionCount { question_id: Seq<char>, actual: nat },
    DuplicateQuestionId(Seq<char>),
    DuplicateOptionId { question_id: Seq<char>, option_id: Seq<char> },
    DuplicateOptionLabel { question_id: Seq<char>, label: Seq<char> },
    NoAnswerMode(Seq<char>),
    MultipleRecommended(Seq<char>),
    InvalidText { field: Seq<char>, max: nat },
    InvalidIdentifier { field: Seq<char> },
}

impl View for QuestionValidationError {
    type V = ValidationErrorView;

    open spec fn view(&self) -> ValidationErrorView {
        match self {
            QuestionValidationError::QuestionCount { actual } => ValidationErrorView::QuestionCount { actual: *actual as nat },
            QuestionValidationError::OptionCount { question_id, actual } => ValidationErrorView::OptionCount { question_id: question_id@, actual: *actual as nat },
            QuestionValidationError::DuplicateQuestionId(id) => ValidationErrorView::DuplicateQuestionId(id@),
            QuestionValidationError::DuplicateOptionId { question_id, option_id } => ValidationErrorView::DuplicateOptionId { question_id: question_id@, option_id: option_id@ },
            QuestionValidationError::DuplicateOptionLabel { question_id, label } => ValidationErrorView::DuplicateOptionLabel { question_id: question_id@, label: label@ },
            QuestionValidationError::NoAnswerMode(id) => ValidationErrorView::NoAnswerMode(id@),
            QuestionValidationError::MultipleRecommended(id) => ValidationErrorView::MultipleRecommended(id@),
            QuestionValidationError::InvalidText { field, max } => ValidationErrorView::InvalidText { field: field@, max: *max as nat },
            QuestionValidationError::InvalidIdentifier { field } => ValidationErrorView::InvalidIdentifier { field: field@ },
        }
    }
}

// ---------------------------------------------------------------------------
// Validation rules
// ---------------------------------------------------------------------------

pub open spec fn ident_char(c: char) -> bool {
    ||| ('a' <= c && c <= 'z')
    ||| ('A' <= c && c <= 'Z')
    ||| ('0' <= c && c <= '9')
    ||| c == '_'
    ||| c == '-'
}

/// A 1-64 character ASCII identifier of letters, digits, `_` and `-`.
pub open spec fn valid_identifier(s: Seq<char>) -> bool {
    &&& 0 < s.len() <= MAX_ID_CHARS
    &&& forall|i: int| 0 <= i < s.len() ==> ident_char(#[trigger] s[i])
}

/// Non-blank text of at most `max` characters.
pub open spec fn valid_text(s: Seq<char>, max: nat) -> bool {
    !is_blank(s) && s.len() <= max
}

/// Field path `questions[i].<name>`.
pub open spec fn question_field(i: nat, name: Seq<char>) -> Seq<char> {
    "questions["@ + dec(i) + "]."@ + name
}

/// Field path `questions[i].options[j].<name>`.
pub open spec fn option_field(i: nat, j: nat, name: Seq<char>) -> Seq<char> {
    "questions["@ + dec(i) + "].options["@ + dec(j) + "]."@ + name
}

/// Number of options marked as recommended among the first `n`.
pub open spec fn recommended_count(opts: Seq<OptionView>, n: int) -> nat
    decreases n,
{
    if n <= 0 {
        0
    } else {
        recommended_count(opts, n - 1) + if opts[n - 1].recommended { 1nat } else { 0nat }
    }
}

/// The first failed check of option `j` of question `qi`, given that the
/// options before it passed.
pub open spec fn option_error(q: SpecView, qi: nat, j: int) -> Option<ValidationErrorView> {
    let o = q.options[j];
    if !valid_identifier(o.id) {
        Some(ValidationErrorView::InvalidIdentifier { field: option_field(qi, j as nat, "id"@) })
    } else if exists|k: int| 0 <= k < j && (#[trigger] q.options[k]).id == o.id {
        Some(ValidationErrorView::DuplicateOptionId { question_id: q.id, option_id: o.id })
    } else if exists|k: int| 0 <= k < j && trim((#[trigger] q.options[k]).label) == trim(o.label) {
        Some(ValidationErrorView::DuplicateOptionLabel { question_id: q.id, label: o.label })
    } else if !valid_text(o.label, MAX_LABEL_CHARS as nat) {
        Some(ValidationErrorView::InvalidText { field: option_field(qi, j as nat, "label"@), max: MAX_LABEL_CHARS as nat })
    } else if o.description is Some && o.description->0.len() > MAX_DESCRIPTION_CHARS {
        Some(ValidationErrorView::InvalidText { field: option_field(qi, j as nat, "description"@), max: MAX_DESCRIPTION_CHARS as nat })
    } else {
        None
    }
}

/// The first option error at or after option `j`.
pub open spec fn options_error_from(q: SpecView, qi: nat, j: int) -> Option<ValidationErrorView>
    decreases q.options.len() - j,
{
    if j < 0 || j >= q.options.len() {
        None
    } else if option_error(q, qi, j) is Some {
        option_error(q, qi, j)
    } else {
        options_error_from(q, qi, j + 1)
    }
}

/// The first failed check of question `i`, given that the questions before
/// it passed.
pub open spec fn question_error(qs: Seq<SpecView>, i: int) -> Option<ValidationErrorView> {
    let q = qs[i];
    if !valid_identifier(q.id) {
        Some(ValidationErrorView::InvalidIdentifier { field: question_field(i as nat, "id"@) })
    } else if exists|k: int| 0 <= k < i && (#[trigger] qs[k]).id == q.id {
        Some(ValidationErrorView::DuplicateQuestionId(q.id))
    } else if !valid_text(q.header, MAX_HEADER_CHARS as nat) {
        Some(ValidationErrorView::InvalidText { field: question_field(i as nat, "header"@), max: MAX_HEADER_CHARS as nat })
    } else if !valid_text(q.question, MAX_QUESTION_CHARS as nat) {
        Some(ValidationErrorView::InvalidText { field: question_field(i as nat, "question"@), max: MAX_QUESTION_CHARS as nat })
    } else if q.options.len() > MAX_OPTIONS_PER_QUESTION {
        Some(ValidationErrorView::OptionCount { question_id: q.id, actual: q.options.len() })
    } else if q.options.len() == 0 && !q.allow_custom {
        Some(ValidationErrorView::NoAnswerMode(q.id))
    } else if options_error_from(q, i as nat, 0) is Some {
        options_error_from(q, i as nat, 0)
    } else if recommended_count(q.options, q.options.len() as int) > 1 {
        Some(ValidationErrorView::MultipleRecommended(q.id))
    } else {
        None
    }
}

pub open spec fn questions_error_from(qs: Seq<SpecView>, i: int) -> Option<ValidationErrorView>
    decreases qs.len() - i,
{
    if i < 0 || i >= qs.len() {
        None
    } else if question_error(qs, i) is Some {
        question_error(qs, i)
    } else {
        questions_error_from(qs, i + 1)
    }
}

/// The error `AskUserQuestionRequest::validate` reports, or `None` when the
/// request is valid.
pub open spec fn request_error(qs: Seq<SpecView>) -> Option<ValidationErrorView> {
    if qs.len() == 0 || qs.len() > MAX_QUESTIONS {
        Some(ValidationErrorView::QuestionCount { actual: qs.len() })
    } else {
        questions_error_from(qs, 0)
    }
}

pub open spec fn request_valid(qs: Seq<SpecView>) -> bool {
    request_error(qs) is None
}

pub open spec fn specs_view(v: Seq<QuestionSpec>) -> Seq<SpecView> {
    v.map_values(|q: QuestionSpec| q@)
}

pub open spec fn options_view(v: Seq<QuestionOption>) -> Seq<OptionView> {
    v.map_values(|o: QuestionOption| o@)
}

fn is_ident_char(c: char) -> (r: bool)
    ensures
        r == ident_char(c),
{
    ('a' <= c && c <= 'z') || ('A' <= c && c <= 'Z') || ('0' <= c && c <= '9') || c == '_' || c
        == '-'
}

fn check_identifier(s: &String) -> (r: bool)
    ensures
        r == valid_identifier(s@),
{
    let v = chars_of(s.as_str());
    if v.len() == 0 || v.len() > MAX_ID_CHARS {
        return false;
    }
    let mut i: usize = 0;
    while i < v.len()
        invariant
            v@ == s@,
            i <= v@.len(),
            forall|k: int| 0 <= k < i ==> ident_char(#[trigger] v@[k]),
        decreases v.len() - i,
    {
        if !is_ident_char(v[i]) {
            return false;
        }
        i = i + 1;
    }
    true
}

fn check_text(s: &String, max: usize) -> (r: bool)
    ensures
        r == valid_text(s@, max as nat),
{
    let blank = is_blank_str(s.as_str());
    let n = s.as_str().unicode_len();
    !blank && n <= max
}

fn question_field_string(i: usize, name: &str) -> (r: String)
    requires
        i <= MAX_QUESTIONS,
    ensures
        r@ == question_field(i as nat, name@),
{
    let d = decimal(i as u64);
    let mut r = concat3("questions[", d.as_str(), "].");
    r.append(name);
    r
}

fn option_field_string(i: usize, j: usize, name: &str) -> (r: String)
    requires
        i <= MAX_QUESTIONS,
        j <= MAX_OPTIONS_PER_QUESTION,
    ensures
        r@ == option_field(i as nat, j as nat, name@),
{
    let di = decimal(i as u64);
    let dj = decimal(j as u64);
    let mut r = concat3("questions[", di.as_str(), "].options[");
    r.append(dj.as_str());
    r.append("].");
    r.append(name);
    proof {
        assert(r@ =~= option_field(i as nat, j as nat, name@));
    }
    r
}

fn check_option(q: &QuestionSpec, qi: usize, j: usize, trimmed_labels: &Vec<String>) -> (r: Option<QuestionValidationError>)
    requires
        qi <= MAX_QUESTIONS,
        j < q.options@.len() <= MAX_OPTIONS_PER_QUESTION,
        trimmed_labels@.len() == j,
        forall|k: int| 0 <= k < j ==> (#[trigger] trimmed_labels@[k])@ == trim(q.options@[k].label@),
    ensures
        match r {
            Some(e) => option_error(q@, qi as nat, j as int) == Some(e@),
            None => option_error(q@, qi as nat, j as int) is None,
        },
{
    let ghost qv = q@;
    let o = &q.options[j];
    assert(qv.options[j as int] == o@);
    if !check_identifier(&o.id) {
        return Some(QuestionValidationError::InvalidIdentifier { field: option_field_string(qi, j, "id") });
    }
    let mut k: usize = 0;
    while k < j
        invariant
            k <= j < q.options@.len(),
            qv == q@,
            o == q.options@[j as int],
            valid_identifier(o.id@),
            forall|m: int| 0 <= m < k ==> q.options@[m].id@ != o.id@,
        decreases j - k,
    {
        if q.options[k].id == o.id {
            assert(qv.options[k as int].id == qv.options[j as int].id);
            return Some(QuestionValidationError::DuplicateOptionId { question_id: q.id.clone(), option_id: o.id.clone() });
        }
        k = k + 1;
    }
    assert(!(exists|m: int| 0 <= m < j && (#[trigger] qv.options[m]).id == qv.options[j as int].id)) by {
        assert forall|m: int| 0 <= m < j implies (#[trigger] qv.options[m]).id != qv.options[j as int].id by {
            assert(qv.options[m] == q.options@[m]@);
        }
    }
    let label = trimmed(o.label.as_str());
    let mut k: usize = 0;
    while k < j
        invariant
            k <= j < q.options@.len(),
            qv == q@,
            o == q.options@[j as int],
            label@ == trim(o.label@),
            valid_identifier(o.id@),
            !(exists|m: int| 0 <= m < j && (#[trigger] qv.options[m]).id == qv.options[j as int].id),
            trimmed_labels@.len() == j,
            forall|m: int| 0 <= m < j ==> (#[trigger] trimmed_labels@[m])@ == trim(q.options@[m].label@),
            forall|m: int| 0 <= m < k ==> trim(q.options@[m].label@) != label@,
        decreases j - k,
    {
        if trimmed_labels[k] == label {
            assert(trim(qv.options[k as int].label) == trim(qv.options[j as int].label));
            return Some(QuestionValidationError::DuplicateOptionLabel { question_id: q.id.clone(), label: o.label.clone() });
        }
        k = k + 1;
    }
    assert(!(exists|m: int| 0 <= m < j && trim((#[trigger] qv.options[m]).label) == trim(qv.options[j as int].label))) by {
        assert forall|m: int| 0 <= m < j implies trim((#[trigger] qv.options[m]).label) != trim(qv.options[j as int].label) by {
            assert(qv.options[m] == q.options@[m]@);
        }
    }
    if !check_text(&o.label, MAX_LABEL_CHARS) {
        return Some(QuestionValidationError::InvalidText { field: option_field_string(qi, j, "label"), max: MAX_LABEL_CHARS });
    }
    match &o.description {
        Some(d) => {
            if d.as_str().unicode_len() > MAX_DESCRIPTION_CHARS {
                return Some(QuestionValidationError::InvalidText { field: option_field_string(qi, j, "description"), max: MAX_DESCRIPTION_CHARS });
            }
        },
        None => {},
    }
    None
}

fn check_question(qs: &Vec<QuestionSpec>, i: usize) -> (r: Option<QuestionValidationError>)
    requires
        i < qs@.len() <= MAX_QUESTIONS,
    ensures
        match r {
            Some(e) => question_error(specs_view(qs@), i as int) == Some(e@),
            None => question_error(specs_view(qs@), i as int) is None,
        },
{
    let ghost qsv = specs_view(qs@);
    let q = &qs[i];
    assert(qsv[i as int] == q@);
    if !check_identifier(&q.id) {
        return Some(QuestionValidationError::InvalidIdentifier { field: question_field_string(i, "id") });
    }
    let mut k: usize = 0;
    while k < i
        invariant
            k <= i < qs@.len(),
            qsv == specs_view(qs@),
            q == qs@[i as int],
            valid_identifier(q.id@),
            forall|m: int| 0 <= m < k ==> qs@[m].id@ != q.id@,
        decreases i - k,
    {
        if qs[k].id == q.id {
            assert(qsv[k as int].id == qsv[i as int].id);
            return Some(QuestionValidationError::DuplicateQuestionId(q.id.clone()));
        }
        k = k + 1;
    }
    assert(!(exists|m: int| 0 <= m < i && (#[trigger] qsv[m]).id == qsv[i as int].id)) by {
        assert forall|m: int| 0 <= m < i implies (#[trigger] qsv[m]).id != qsv[i as int].id by {
            assert(qsv[m] == qs@[m]@);
        }
    }
    if !check_text(&q.header, MAX_HEADER_CHARS) {
        return Some(QuestionValidationError::InvalidText { field: question_field_string(i, "header"), max: MAX_HEADER_CHARS });
    }
    if !check_text(&q.question, MAX_QUESTION_CHARS) {
        return Some(QuestionValidationError::InvalidText { field: question_field_string(i, "question"), max: MAX_QUESTION_CHARS });
    }
    let n = q.options.len();
    if n > MAX_OPTIONS_PER_QUESTION {
        return Some(QuestionValidationError::OptionCount { question_id: q.id.clone(), actual: n });
    }
    if n == 0 && !q.allow_custom {
        return Some(QuestionValidationError::NoAnswerMode(q.id.clone()));
    }
    let ghost qv = q@;
    assert(question_error(qsv, i as int) == (if options_error_from(qv, i as nat, 0) is Some {
        options_error_from(qv, i as nat, 0)
    } else if recommended_count(qv.options, qv.options.len() as int) > 1 {
        Some(ValidationErrorView::MultipleRecommended(qv.id))
    } else {
        None
    }));
    let mut labels: Vec<String> = Vec::new();
    let mut recommended: usize = 0;
    let mut j: usize = 0;
    while j < n
        invariant
            n == q.options@.len() <= MAX_OPTIONS_PER_QUESTION,
            j <= n,
            i <= MAX_QUESTIONS,
            qv == q@,
            qsv == specs_view(qs@),
            i < qs@.len(),
            q == qs@[i as int],
            qsv[i as int] == qv,
            question_error(qsv, i as int) == (if options_error_from(qv, i as nat, 0) is Some {
                options_error_from(qv, i as nat, 0)
            } else if recommended_count(qv.options, qv.options.len() as int) > 1 {
                Some(ValidationErrorView::MultipleRecommended(qv.id))
            } else {
                None
            }),
            labels@.len() == j,
            forall|k: int| 0 <= k < j ==> (#[trigger] labels@[k])@ == trim(q.options@[k].label@),
            options_error_from(qv, i as nat, 0) == options_error_from(qv, i as nat, j as int),
            recommended == recommended_count(qv.options, j as int),
            recommended <= j,
        decreases n - j,
    {
        match check_option(q, i, j, &labels) {
            Some(e) => {
                return Some(e);
            },
            None => {},
        }
        let o = &q.options[j];
        assert(qv.options[j as int] == o@);
        labels.push(trimmed(o.label.as_str()));
        if o.recommended {
            recommended = recommended + 1;
        }
        j = j + 1;
    }
    if recommended > 1 {
        return Some(QuestionValidationError::MultipleRecommended(q.id.clone()));
    }
    None
}

impl AskUserQuestionRequest {
    /// Checks the request limits, identifiers, texts, option uniqueness and
    /// the single recommended choice, reporting the first violation.
    pub fn validate(&self) -> (r: Result<(), QuestionValidationError>)
        ensures
            r is Ok <==> request_error(self@) is None,
            r matches Err(e) ==> request_error(self@) == Some(e@),
    {
        let n = self.questions.len();
        if n == 0 || n > MAX_QUESTIONS {
            return Err(QuestionValidationError::QuestionCount { actual: n });
        }
        let mut i: usize = 0;
        while i < n
            invariant
                n == self.questions@.len(),
                0 < n <= MAX_QUESTIONS,
                i <= n,
                self@ == specs_view(self.questions@),
                questions_error_from(self@, 0) == questions_error_from(self@, i as int),
            decreases n - i,
        {
            match check_question(&self.questions, i) {
                Some(e) => {
                    return Err(e);
                },
                None => {},
            }
            i = i + 1;
        }
        Ok(())
    }
}

// ---------------------------------------------------------------------------
// Answers and resolutions
// ---------------------------------------------------------------------------

#[derive(Clone, Debug, Default, PartialEq, Eq)]
pub struct QuestionAnswer {
    pub question_id: String,
    pub selected_option_id: Option<String>,
    /// May accompany a selection when the user wants to qualify it.
    pub custom_text: Option<String>,
}

pub struct AnswerView {
    pub question_id: Seq<char>,
    pub selected: Option<Seq<char>>,
    pub custom: Option<Seq<char>>,
}

impl View for QuestionAnswer {
    type V = AnswerView;

    open spec fn view(&self) -> AnswerView {
        AnswerView {
            question_id: self.question_id@,
            selected: opt_view(self.selected_option_id),
            custom: opt_view(self.custom_text),
        }
    }
}

pub open spec fn answers_view(v: Seq<QuestionAnswer>) -> Seq<AnswerView> {
    v.map_values(|a: QuestionAnswer| a@)
}

#[derive(Clone, Copy, Debug, PartialEq, Eq, Structural)]
pub enum ResolveAction {
    /// Every question must contain a valid answer.
    Submit,
    /// Continue the same turn with any partial answers.
    Continue,
}

#[derive(Clone, Copy, Debug, PartialEq, Eq, Structural)]
pub enum ResolutionStatus {
    Answered,
    PartiallyAnswered,
    Skipped,
}

#[derive(Clone, Debug, PartialEq, Eq)]
pub struct ResolvedAnswer {
    pub question_id: String,
    pub selected_option_id: Option<String>,
    pub selected_label: Option<String>,
    pub custom_text: Option<String>,
    pub destination: AnswerDestination,
}

pub struct ResolvedView {
    pub question_id: Seq<char>,
    pub selected: Option<Seq<char>>,
    pub selected_label: Option<Seq<char>>,
    pub custom: Option<Seq<char>>,
    pub destination: AnswerDestination,
}

impl View for ResolvedAnswer {
    type V = ResolvedView;

    open spec fn view(&self) -> ResolvedView {
        ResolvedView {
            question_id: self.question_id@,
            selected: opt_view(self.selected_option_id),
            selected_label: opt_view(self.selected_label),
            custom: opt_view(self.custom_text),
            destination: self.destination,
        }
    }
}

#[derive(Clone, Debug, PartialEq, Eq)]
pub struct QuestionResolution {
    pub status: ResolutionStatus,
    pub action: ResolveAction,
    pub answers: Vec<ResolvedAnswer>,
    pub unanswered_question_ids: Vec<String>,
}

pub struct ResolutionView {
    pub status: ResolutionStatus,
    pub action: ResolveAction,
    pub answers: Seq<ResolvedView>,
    pub unanswered: Seq<Seq<char>>,
}

impl View for QuestionResolution {
    type V = ResolutionView;

    open spec fn view(&self) -> ResolutionView {
        ResolutionView {
            status: self.status,
            action: self.action,
            answers: self.answers@.map_values(|a: ResolvedAnswer| a@),
            unanswered: strs_view(self.unanswered_question_ids@),
        }
    }
}

/// True when some accepted answer is routed to the managed AGENTS.md memory.
pub open spec fn wants_agent_markdown(r: ResolutionView) -> bool {
    exists|i: int| 0 <= i < r.answers.len() && (#[trigger] r.answers[i]).destination == AnswerDestination::AgentMarkdown
}

impl QuestionResolution {
    pub fn requests_agent_markdown(&self) -> (r: bool)
        ensures
            r == wants_agent_markdown(self@),
    {
        let mut i: usize = 0;
        while i < self.answers.len()
            invariant
                i <= self.answers@.len(),
                forall|k: int| 0 <= k < i ==> self.answers@[k].destination != AnswerDestination::AgentMarkdown,
            decreases self.answers.len() - i,
        {
            if self.answers[i].destination == AnswerDestination::AgentMarkdown {
                assert(self@.answers[i as int].destination == AnswerDestination::AgentMarkdown);
                return true;
            }
            i = i + 1;
        }
        assert forall|k: int| 0 <= k < self@.answers.len() implies (#[trigger] self@.answers[k]).destination != AnswerDestination::AgentMarkdown by {
            assert(self@.answers[k] == self.answers@[k]@);
        }
        false
    }
}

#[derive(Clone, Debug, PartialEq, Eq)]
pub struct QuestionInvocation {
    pub interaction_id: String,
    pub execution_id: String,
    pub request: AskUserQuestionRequest,
}

/// The interaction id derived from a tool execution id.
pub open spec fn interaction_id_for(execution_id: Seq<char>) -> Seq<char> {
    "question:"@ + execution_id
}

impl QuestionInvocation {
    pub fn new(execution_id: String, request: AskUserQuestionRequest) -> (r: Self)
        ensures
            r.interaction_id@ == interaction_id_for(execution_id@),
            r.execution_id@ == execution_id@,
            r.request@ == request@,
    {
        let mut interaction_id = String::from_str("question:");
        interaction_id.append(execution_id.as_str());
        QuestionInvocation { interaction_id, execution_id, request }
    }
}

/// Persistable interaction vocabulary.
#[derive(Clone, Debug, PartialEq, Eq)]
pub enum QuestionEvent {
    Requested { invocation: QuestionInvocation },
    DraftUpdated { interaction_id: String, answers: Vec<QuestionAnswer> },
    Resolved { interaction_id: String, resolution: QuestionResolution },
    Cancelled { interaction_id: String, reason: String },
}

/// Public view of an interaction's settlement state.
#[derive(Clone, Debug, PartialEq, Eq)]
pub enum QuestionTerminalState {
    Pending,
    Resolved(QuestionResolution),
    Cancelled(String),
}

#[derive(Clone, Debug, PartialEq, Eq)]
pub enum QuestionStateError {
    UnknownQuestion(String),
    DuplicateAnswer(String),
    UnknownOption { question_id: String, option_id: String },
    CustomNotAllowed(String),
    CustomTooLong(String),
    MissingAnswers(Vec<String>),
    AlreadyResolved,
    Cancelled,
}

pub enum StateErrorView {
    UnknownQuestion(Seq<char>),
    DuplicateAnswer(Seq<char>),
    UnknownOption { question_id: Seq<char>, option_id: Seq<char> },
    CustomNotAllowed(Seq<char>),
    CustomTooLong(Seq<char>),
    MissingAnswers(Seq<Seq<char>>),
    AlreadyResolved,
    Cancelled,
}

impl View for QuestionStateError {
    type V = StateErrorView;

    open spec fn view(&self) -> StateErrorView {
        match self {
            QuestionStateError::UnknownQuestion(id) => StateErrorView::UnknownQuestion(id@),
            QuestionStateError::DuplicateAnswer(id) => StateErrorView::DuplicateAnswer(id@),
            QuestionStateError::UnknownOption { question_id, option_id } => StateErrorView::UnknownOption { question_id: question_id@, option_id: option_id@ },
            QuestionStateError::CustomNotAllowed(id) => StateErrorView::CustomNotAllowed(id@),
            QuestionStateError::CustomTooLong(id) => StateErrorView::CustomTooLong(id@),
            QuestionStateError::MissingAnswers(ids) => StateErrorView::MissingAnswers(strs_view(ids@)),
            QuestionStateError::AlreadyResolved => StateErrorView::AlreadyResolved,
            QuestionStateError::Cancelled => StateErrorView::Cancelled,
        }
    }
}

#[derive(Clone, Debug, PartialEq, Eq)]
pub struct QuestionProviderError {
    pub message: String,
    pub retryable: bool,
}

impl QuestionProviderError {
    pub fn new(message: String) -> (r: Self)
        ensures
            r.message@ == message@,
            !r.retryable,
    {
        QuestionProviderError { message, retryable: false }
    }
}

// ---------------------------------------------------------------------------
// Answer rules
// ---------------------------------------------------------------------------

/// Index of the first question with id `id` at or after `k`, or -1.
pub open spec fn index_from(qs: Seq<SpecView>, id: Seq<char>, k: int) -> int
    decreases qs.len() - k,
{
    if k < 0 || k >= qs.len() {
        -1
    } else if qs[k].id == id {
        k
    } else {
        index_from(qs, id, k + 1)
    }
}

pub open spec fn question_index(qs: Seq<SpecView>, id: Seq<char>) -> int {
    index_from(qs, id, 0)
}

/// Index of the first option with id `id` at or after `k`, or -1.
pub open spec fn option_index_from(os: Seq<OptionView>, id: Seq<char>, k: int) -> int
    decreases os.len() - k,
{
    if k < 0 || k >= os.len() {
        -1
    } else if os[k].id == id {
        k
    } else {
        option_index_from(os, id, k + 1)
    }
}

pub open spec fn has_text(a: AnswerView) -> bool {
    a.custom is Some && !is_blank(a.custom->0)
}

/// The first failed check of answer `a` against question `q`; a draft may
/// leave the question without a selection or text.
pub open spec fn answer_error(q: SpecView, a: AnswerView, draft: bool) -> Option<StateErrorView> {
    if a.selected is Some && option_index_from(q.options, a.selected->0, 0) < 0 {
        Some(StateErrorView::UnknownOption { question_id: q.id, option_id: a.selected->0 })
    } else if a.custom is Some && !is_blank(a.custom->0) && !q.allow_custom {
        Some(StateErrorView::CustomNotAllowed(q.id))
    } else if a.custom is Some && a.custom->0.len() > MAX_CUSTOM_ANSWER_CHARS {
        Some(StateErrorView::CustomTooLong(q.id))
    } else if !draft && a.selected is None && !has_text(a) {
        Some(StateErrorView::MissingAnswers(seq![q.id]))
    } else {
        None
    }
}

/// What a draft keeps for answer `a`: nothing when it neither selects nor
/// says anything, else the answer.
pub open spec fn draft_slot(a: AnswerView) -> Option<AnswerView> {
    if a.selected is None && !has_text(a) { None } else { Some(a) }
}

/// Applies `answers[i..]` to a draft (one slot per question). Returns the
/// draft as left by the last successful answer and the first error.
pub open spec fn draft_update_from(qs: Seq<SpecView>, draft: Seq<Option<AnswerView>>, answers: Seq<AnswerView>, i: int) -> (Seq<Option<AnswerView>>, Option<StateErrorView>)
    decreases answers.len() - i,
{
    if i < 0 || i >= answers.len() {
        (draft, None)
    } else {
        let a = answers[i];
        let qi = question_index(qs, a.question_id);
        if exists|k: int| 0 <= k < i && (#[trigger] answers[k]).question_id == a.question_id {
            (draft, Some(StateErrorView::DuplicateAnswer(a.question_id)))
        } else if qi < 0 {
            (draft, Some(StateErrorView::UnknownQuestion(a.question_id)))
        } else if answer_error(qs[qi], a, true) is Some {
            (draft, answer_error(qs[qi], a, true))
        } else {
            draft_update_from(qs, draft.update(qi, draft_slot(a)), answers, i + 1)
        }
    }
}

/// The draft answers in question order.
pub open spec fn draft_list(d: Seq<Option<AnswerView>>) -> Seq<AnswerView>
    decreases d.len(),
{
    if d.len() == 0 {
        Seq::empty()
    } else {
        let prev = draft_list(d.drop_last());
        if d.last() is Some { prev.push(d.last()->0) } else { prev }
    }
}

pub open spec fn empty_slots(n: nat) -> Seq<Option<AnswerView>> {
    Seq::new(n, |i: int| None)
}

/// Collects `answers[i..]` into one slot per question, rejecting unknown
/// questions, invalid answers and a second answer for the same question.
pub open spec fn collect_from(qs: Seq<SpecView>, answers: Seq<AnswerView>, i: int, by: Seq<Option<AnswerView>>) -> Result<Seq<Option<AnswerView>>, StateErrorView>
    decreases answers.len() - i,
{
    if i < 0 || i >= answers.len() {
        Ok(by)
    } else {
        let a = answers[i];
        let qi = question_index(qs, a.question_id);
        if qi < 0 {
            Err(StateErrorView::UnknownQuestion(a.question_id))
        } else if answer_error(qs[qi], a, false) is Some {
            Err(answer_error(qs[qi], a, false)->0)
        } else if by[qi] is Some {
            Err(StateErrorView::DuplicateAnswer(qs[qi].id))
        } else {
            collect_from(qs, answers, i + 1, by.update(qi, Some(a)))
        }
    }
}

/// Ids of the first `n` questions that have no collected answer.
pub open spec fn unanswered_upto(qs: Seq<SpecView>, by: Seq<Option<AnswerView>>, n: int) -> Seq<Seq<char>>
    decreases n,
{
    if n <= 0 {
        Seq::empty()
    } else {
        let prev = unanswered_upto(qs, by, n - 1);
        if by[n - 1] is None { prev.push(qs[n - 1].id) } else { prev }
    }
}

pub open spec fn resolved_answer(q: SpecView, a: AnswerView) -> ResolvedView {
    ResolvedView {
        question_id: q.id,
        selected: a.selected,
        selected_label: if a.selected is Some && option_index_from(q.options, a.selected->0, 0) >= 0 {
            Some(q.options[option_index_from(q.options, a.selected->0, 0)].label)
        } else {
            None
        },
        custom: if has_text(a) { Some(trim(a.custom->0)) } else { None },
        destination: q.destination,
    }
}

/// Resolved answers of the first `n` questions, in question order.
pub open spec fn resolved_upto(qs: Seq<SpecView>, by: Seq<Option<AnswerView>>, n: int) -> Seq<ResolvedView>
    decreases n,
{
    if n <= 0 {
        Seq::empty()
    } else {
        let prev = resolved_upto(qs, by, n - 1);
        if by[n - 1] is Some { prev.push(resolved_answer(qs[n - 1], by[n - 1]->0)) } else { prev }
    }
}

pub open spec fn status_of(answered: nat, unanswered: nat) -> ResolutionStatus {
    if answered == 0 {
        ResolutionStatus::Skipped
    } else if unanswered == 0 {
        ResolutionStatus::Answered
    } else {
        ResolutionStatus::PartiallyAnswered
    }
}

/// The resolution that the given action and answers produce for a request.
pub open spec fn build_spec(qs: Seq<SpecView>, action: ResolveAction, answers: Seq<AnswerView>) -> Result<ResolutionView, StateErrorView> {
    match collect_from(qs, answers, 0, empty_slots(qs.len())) {
        Err(e) => Err(e),
        Ok(by) => {
            let un = unanswered_upto(qs, by, qs.len() as int);
            if action == ResolveAction::Submit && un.len() > 0 {
                Err(StateErrorView::MissingAnswers(un))
            } else {
                let res = resolved_upto(qs, by, qs.len() as int);
                Ok(ResolutionView { status: status_of(res.len(), un.len()), action, answers: res, unanswered: un })
            }
        },
    }
}


// ---------------------------------------------------------------------------
// Lookup and answer checks
// ---------------------------------------------------------------------------

pub proof fn lemma_index_from(qs: Seq<SpecView>, id: Seq<char>, k: int)
    requires
        0 <= k,
    ensures
        index_from(qs, id, k) == -1 || (k <= index_from(qs, id, k) < qs.len() && qs[index_from(qs, id, k)].id == id),
        index_from(qs, id, k) == -1 ==> forall|j: int| k <= j < qs.len() ==> (#[trigger] qs[j]).id != id,
    decreases qs.len() - k,
{
    if k < qs.len() && qs[k].id != id {
        lemma_index_from(qs, id, k + 1);
    }
}

pub proof fn lemma_option_index_from(os: Seq<OptionView>, id: Seq<char>, k: int)
    requires
        0 <= k,
    ensures
        option_index_from(os, id, k) == -1 || (k <= option_index_from(os, id, k) < os.len() && os[option_index_from(os, id, k)].id == id),
    decreases os.len() - k,
{
    if k < os.len() && os[k].id != id {
        lemma_option_index_from(os, id, k + 1);
    }
}

fn find_question(qs: &Vec<QuestionSpec>, id: &String) -> (r: Option<usize>)
    ensures
        match r {
            Some(k) => k < qs@.len() && k as int == question_index(specs_view(qs@), id@),
            None => question_index(specs_view(qs@), id@) < 0,
        },
{
    let ghost qsv = specs_view(qs@);
    let mut k: usize = 0;
    while k < qs.len()
        invariant
            k <= qs@.len(),
            qsv == specs_view(qs@),
            question_index(qsv, id@) == index_from(qsv, id@, k as int),
        decreases qs.len() - k,
    {
        assert(qsv[k as int] == qs@[k as int]@);
        if qs[k].id == *id {
            return Some(k);
        }
        k = k + 1;
    }
    None
}

fn find_option(os: &Vec<QuestionOption>, id: &String) -> (r: Option<usize>)
    ensures
        match r {
            Some(k) => k < os@.len() && k as int == option_index_from(options_view(os@), id@, 0),
            None => option_index_from(options_view(os@), id@, 0) < 0,
        },
{
    let ghost osv = options_view(os@);
    let mut k: usize = 0;
    while k < os.len()
        invariant
            k <= os@.len(),
            osv == options_view(os@),
            option_index_from(osv, id@, 0) == option_index_from(osv, id@, k as int),
        decreases os.len() - k,
    {
        assert(osv[k as int] == os@[k as int]@);
        if os[k].id == *id {
            return Some(k);
        }
        k = k + 1;
    }
    None
}

fn answer_has_text(a: &QuestionAnswer) -> (r: bool)
    ensures
        r == has_text(a@),
{
    match &a.custom_text {
        Some(t) => !is_blank_str(t.as_str()),
        None => false,
    }
}

fn check_answer(q: &QuestionSpec, a: &QuestionAnswer, draft: bool) -> (r: Option<QuestionStateError>)
    ensures
        match r {
            Some(e) => answer_error(q@, a@, draft) == Some(e@),
            None => answer_error(q@, a@, draft) is None,
        },
{
    match &a.selected_option_id {
        Some(option_id) => {
            if find_option(&q.options, option_id).is_none() {
                return Some(QuestionStateError::UnknownOption { question_id: q.id.clone(), option_id: option_id.clone() });
            }
        },
        None => {},
    }
    match &a.custom_text {
        Some(text) => {
            if !is_blank_str(text.as_str()) && !q.allow_custom {
                return Some(QuestionStateError::CustomNotAllowed(q.id.clone()));
            }
            if text.as_str().unicode_len() > MAX_CUSTOM_ANSWER_CHARS {
                return Some(QuestionStateError::CustomTooLong(q.id.clone()));
            }
        },
        None => {},
    }
    if !draft && a.selected_option_id.is_none() && !answer_has_text(a) {
        let mut ids: Vec<String> = Vec::new();
        ids.push(q.id.clone());
        proof {
            assert(strs_view(ids@) =~= seq![q.id@]);
        }
        return Some(QuestionStateError::MissingAnswers(ids));
    }
    None
}

fn has_earlier_answer(answers: &Vec<QuestionAnswer>, i: usize) -> (r: bool)
    requires
        i < answers@.len(),
    ensures
        r == (exists|m: int| 0 <= m < i && (#[trigger] answers_view(answers@)[m]).question_id == answers@[i as int].question_id@),
{
    let ghost av = answers_view(answers@);
    let mut j: usize = 0;
    while j < i
        invariant
            j <= i < answers@.len(),
            av == answers_view(answers@),
            forall|m: int| 0 <= m < j ==> av[m].question_id != answers@[i as int].question_id@,
        decreases i - j,
    {
        if answers[j].question_id == answers[i].question_id {
            assert(av[j as int].question_id == answers@[i as int].question_id@);
            return true;
        }
        j = j + 1;
    }
    false
}

fn copy_answer(a: &QuestionAnswer) -> (r: QuestionAnswer)
    ensures
        r@ == a@,
{
    QuestionAnswer {
        question_id: a.question_id.clone(),
        selected_option_id: copy_opt(&a.selected_option_id),
        custom_text: copy_opt(&a.custom_text),
    }
}

fn copy_resolved(a: &ResolvedAnswer) -> (r: ResolvedAnswer)
    ensures
        r@ == a@,
{
    ResolvedAnswer {
        question_id: a.question_id.clone(),
        selected_option_id: copy_opt(&a.selected_option_id),
        selected_label: copy_opt(&a.selected_label),
        custom_text: copy_opt(&a.custom_text),
        destination: a.destination,
    }
}

fn copy_resolution(r: &QuestionResolution) -> (c: QuestionResolution)
    ensures
        c@ == r@,
{
    let mut answers: Vec<ResolvedAnswer> = Vec::new();
    let mut i: usize = 0;
    while i < r.answers.len()
        invariant
            i <= r.answers@.len(),
            answers@.len() == i,
            forall|k: int| 0 <= k < i ==> (#[trigger] answers@[k])@ == r.answers@[k]@,
        decreases r.answers.len() - i,
    {
        answers.push(copy_resolved(&r.answers[i]));
        i = i + 1;
    }
    let c = QuestionResolution {
        status: r.status,
        action: r.action,
        answers,
        unanswered_question_ids: copy_strs(&r.unanswered_question_ids),
    };
    assert(c@.answers =~= r@.answers);
    c
}

fn resolved_eq(a: &ResolvedAnswer, b: &ResolvedAnswer) -> (r: bool)
    ensures
        r == (a@ == b@),
{
    a.question_id == b.question_id && opt_eq(&a.selected_option_id, &b.selected_option_id)
        && opt_eq(&a.selected_label, &b.selected_label) && opt_eq(&a.custom_text, &b.custom_text)
        && a.destination == b.destination
}

/// Structural equality of two resolutions.
fn resolution_eq(a: &QuestionResolution, b: &QuestionResolution) -> (r: bool)
    ensures
        r == (a@ == b@),
{
    if a.status != b.status || a.action != b.action || a.answers.len() != b.answers.len() {
        assert(a@.answers.len() == a.answers@.len());
        return false;
    }
    if !strs_eq(&a.unanswered_question_ids, &b.unanswered_question_ids) {
        return false;
    }
    let mut i: usize = 0;
    while i < a.answers.len()
        invariant
            a.answers@.len() == b.answers@.len(),
            i <= a.answers@.len(),
            forall|k: int| 0 <= k < i ==> a.answers@[k]@ == b.answers@[k]@,
        decreases a.answers.len() - i,
    {
        if !resolved_eq(&a.answers[i], &b.answers[i]) {
            assert(a@.answers[i as int] != b@.answers[i as int]);
            return false;
        }
        i = i + 1;
    }
    assert(a@.answers =~= b@.answers);
    true
}

pub open spec fn slots_view(d: Seq<Option<QuestionAnswer>>) -> Seq<Option<AnswerView>> {
    d.map_values(|o: Option<QuestionAnswer>| match o {
        Some(a) => Some(a@),
        None => None,
    })
}

pub open spec fn state_result_view<T: View>(r: Result<T, QuestionStateError>) -> Result<T::V, StateErrorView> {
    match r {
        Ok(v) => Ok(v@),
        Err(e) => Err(e@),
    }
}

/// The answers held in `slots`, in question order.
fn slot_answers(slots: &Vec<Option<QuestionAnswer>>) -> (r: Vec<QuestionAnswer>)
    ensures
        answers_view(r@) == draft_list(slots_view(slots@)),
{
    let mut r: Vec<QuestionAnswer> = Vec::new();
    let mut i: usize = 0;
    while i < slots.len()
        invariant
            i <= slots@.len(),
            answers_view(r@) == draft_list(slots_view(slots@.take(i as int))),
        decreases slots.len() - i,
    {
        let ghost before = r@;
        match &slots[i] {
            Some(a) => {
                r.push(copy_answer(a));
            },
            None => {},
        }
        proof {
            let t = slots_view(slots@.take(i + 1));
            assert(t.drop_last() =~= slots_view(slots@.take(i as int)));
            assert(answers_view(r@) =~= draft_list(t));
        }
        i = i + 1;
    }
    assert(slots@.take(slots@.len() as int) =~= slots@);
    r
}

/// Builds the resolution of `answers` for `request` under `action`.
fn build_resolution(request: &AskUserQuestionRequest, action: ResolveAction, answers: &Vec<QuestionAnswer>) -> (r: Result<QuestionResolution, QuestionStateError>)
    ensures
        state_result_view(r) == build_spec(request@, action, answers_view(answers@)),
{
    let qs = &request.questions;
    let ghost qsv = request@;
    let n = qs.len();
    let mut by: Vec<Option<QuestionAnswer>> = Vec::new();
    let mut k: usize = 0;
    while k < n
        invariant
            n == qs@.len(),
            k <= n,
            by@.len() == k,
            forall|j: int| 0 <= j < k ==> (#[trigger] by@[j]) is None,
        decreases n - k,
    {
        by.push(None);
        k = k + 1;
    }
    assert(slots_view(by@) =~= empty_slots(n as nat));
    let ghost av = answers_view(answers@);
    let mut i: usize = 0;
    while i < answers.len()
        invariant
            n == qs@.len(),
            qsv == request@,
            qsv == specs_view(qs@),
            av == answers_view(answers@),
            i <= answers@.len(),
            by@.len() == n,
            collect_from(qsv, av, 0, empty_slots(n as nat)) == collect_from(qsv, av, i as int, slots_view(by@)),
        decreases answers.len() - i,
    {
        let a = &answers[i];
        assert(av[i as int] == a@);
        match find_question(qs, &a.question_id) {
            None => {
                return Err(QuestionStateError::UnknownQuestion(a.question_id.clone()));
            },
            Some(qi) => {
                let q = &qs[qi];
                assert(qsv[qi as int] == q@);
                match check_answer(q, a, false) {
                    Some(e) => {
                        return Err(e);
                    },
                    None => {},
                }
                if by[qi].is_some() {
                    return Err(QuestionStateError::DuplicateAnswer(q.id.clone()));
                }
                let ghost before = by@;
                by.set(qi, Some(copy_answer(a)));
                proof {
                    assert(slots_view(by@) =~= slots_view(before).update(qi as int, Some(a@)));
                }
            },
        }
        i = i + 1;
    }
    let ghost byv = slots_view(by@);
    let mut unanswered: Vec<String> = Vec::new();
    let mut resolved: Vec<ResolvedAnswer> = Vec::new();
    let mut k: usize = 0;
    while k < n
        invariant
            n == qs@.len(),
            qsv == specs_view(qs@),
            by@.len() == n,
            byv == slots_view(by@),
            k <= n,
            strs_view(unanswered@) == unanswered_upto(qsv, byv, k as int),
            resolved@.map_values(|x: ResolvedAnswer| x@) == resolved_upto(qsv, byv, k as int),
        decreases n - k,
    {
        let q = &qs[k];
        assert(qsv[k as int] == q@);
        match &by[k] {
            None => {
                unanswered.push(q.id.clone());
                proof {
                    assert(strs_view(unanswered@) =~= unanswered_upto(qsv, byv, k + 1));
                    assert(resolved@.map_values(|x: ResolvedAnswer| x@) =~= resolved_upto(qsv, byv, k + 1));
                }
            },
            Some(a) => {
                assert(byv[k as int] == Some(a@));
                let selected_label = match &a.selected_option_id {
                    Some(option_id) => match find_option(&q.options, option_id) {
                        Some(j) => {
                            assert(options_view(q.options@)[j as int] == q.options@[j as int]@);
                            Some(q.options[j].label.clone())
                        },
                        None => None,
                    },
                    None => None,
                };
                let custom_text = if answer_has_text(a) {
                    match &a.custom_text {
                        Some(t) => Some(trimmed(t.as_str())),
                        None => None,
                    }
                } else {
                    None
                };
                let ra = ResolvedAnswer {
                    question_id: q.id.clone(),
                    selected_option_id: copy_opt(&a.selected_option_id),
                    selected_label,
                    custom_text,
                    destination: q.destination,
                };
                assert(ra@ == resolved_answer(q@, a@));
                resolved.push(ra);
                proof {
                    assert(strs_view(unanswered@) =~= unanswered_upto(qsv, byv, k + 1));
                    assert(resolved@.map_values(|x: ResolvedAnswer| x@) =~= resolved_upto(qsv, byv, k + 1));
                }
            },
        }
        k = k + 1;
    }
    if action == ResolveAction::Submit && unanswered.len() > 0 {
        return Err(QuestionStateError::MissingAnswers(unanswered));
    }
    let status = if resolved.len() == 0 {
        ResolutionStatus::Skipped
    } else if unanswered.len() == 0 {
        ResolutionStatus::Answered
    } else {
        ResolutionStatus::PartiallyAnswered
    };
    Ok(QuestionResolution { status, action, answers: resolved, unanswered_question_ids: unanswered })
}


// ---------------------------------------------------------------------------
// The interaction state machine
// ---------------------------------------------------------------------------

#[derive(Clone, Debug, PartialEq, Eq)]
enum InteractionTerminal {
    Resolved(QuestionResolution),
    Cancelled(String),
}

pub enum TerminalView {
    Resolved(ResolutionView),
    Cancelled(Seq<char>),
}

/// Abstract state of one question interaction.
pub struct InteractionView {
    pub interaction_id: Seq<char>,
    pub execution_id: Seq<char>,
    pub request: Seq<SpecView>,
    /// One slot per question, in question order.
    pub draft: Seq<Option<AnswerView>>,
    pub terminal: Option<TerminalView>,
}

/// Pure state machine used by durable providers and UI tests.
#[derive(Debug, PartialEq, Eq)]
pub struct QuestionInteraction {
    invocation: QuestionInvocation,
    draft: Vec<Option<QuestionAnswer>>,
    terminal: Option<InteractionTerminal>,
}

spec fn terminal_view(t: Option<InteractionTerminal>) -> Option<TerminalView> {
    match t {
        None => None,
        Some(InteractionTerminal::Resolved(r)) => Some(TerminalView::Resolved(r@)),
        Some(InteractionTerminal::Cancelled(s)) => Some(TerminalView::Cancelled(s@)),
    }
}

impl View for QuestionInteraction {
    type V = InteractionView;

    closed spec fn view(&self) -> InteractionView {
        InteractionView {
            interaction_id: self.invocation.interaction_id@,
            execution_id: self.invocation.execution_id@,
            request: self.invocation.request@,
            draft: slots_view(self.draft@),
            terminal: terminal_view(self.terminal),
        }
    }
}

/// Well-formed interaction state: a valid request and one draft slot per
/// question, each filled slot answering its own question.
pub open spec fn interaction_wf(s: InteractionView) -> bool {
    &&& request_valid(s.request)
    &&& s.draft.len() == s.request.len()
    &&& forall|k: int| 0 <= k < s.draft.len() && (#[trigger] s.draft[k]) is Some ==> s.draft[k]->0.question_id == s.request[k].id
}

pub open spec fn pending_error(s: InteractionView) -> Option<StateErrorView> {
    match s.terminal {
        None => None,
        Some(TerminalView::Resolved(_)) => Some(StateErrorView::AlreadyResolved),
        Some(TerminalView::Cancelled(_)) => Some(StateErrorView::Cancelled),
    }
}

/// `update_draft`: merge answers into a pending draft. Answers before the
/// first rejected one remain merged.
pub open spec fn update_draft_spec(s: InteractionView, answers: Seq<AnswerView>) -> (InteractionView, Result<Seq<AnswerView>, StateErrorView>) {
    if pending_error(s) is Some {
        (s, Err(pending_error(s)->0))
    } else {
        let (d, e) = draft_update_from(s.request, s.draft, answers, 0);
        let s2 = InteractionView { draft: d, ..s };
        (s2, if e is Some { Err(e->0) } else { Ok(draft_list(d)) })
    }
}

/// `dismiss`: the pending draft, unchanged.
pub open spec fn dismiss_spec(s: InteractionView) -> Result<Seq<AnswerView>, StateErrorView> {
    if pending_error(s) is Some {
        Err(pending_error(s)->0)
    } else {
        Ok(draft_list(s.draft))
    }
}

/// `resolve`: settle a pending interaction, or compare a repeated request
/// against the existing resolution.
pub open spec fn resolve_spec(s: InteractionView, action: ResolveAction, answers: Seq<AnswerView>) -> (InteractionView, Result<ResolutionView, StateErrorView>) {
    match s.terminal {
        Some(TerminalView::Resolved(existing)) => {
            (s, match build_spec(s.request, action, answers) {
                Err(e) => Err(e),
                Ok(requested) => if requested == existing { Ok(existing) } else { Err(StateErrorView::AlreadyResolved) },
            })
        },
        Some(TerminalView::Cancelled(_)) => (s, Err(StateErrorView::Cancelled)),
        None => {
            let (d, e) = draft_update_from(s.request, s.draft, answers, 0);
            let s2 = InteractionView { draft: d, ..s };
            if e is Some {
                (s2, Err(e->0))
            } else {
                match build_spec(s.request, action, draft_list(d)) {
                    Err(e2) => (s2, Err(e2)),
                    Ok(res) => (InteractionView { terminal: Some(TerminalView::Resolved(res)), ..s2 }, Ok(res)),
                }
            }
        },
    }
}

/// `cancel`: first cancellation wins; repeating the same reason is a no-op.
pub open spec fn cancel_spec(s: InteractionView, reason: Seq<char>) -> (InteractionView, Result<(), StateErrorView>) {
    match s.terminal {
        None => (InteractionView { terminal: Some(TerminalView::Cancelled(reason)), ..s }, Ok(())),
        Some(TerminalView::Cancelled(existing)) => (s, if existing == reason { Ok(()) } else { Err(StateErrorView::Cancelled) }),
        Some(TerminalView::Resolved(_)) => (s, Err(StateErrorView::AlreadyResolved)),
    }
}

pub open spec fn answers_result_view(r: Result<Vec<QuestionAnswer>, QuestionStateError>) -> Result<Seq<AnswerView>, StateErrorView> {
    match r {
        Ok(v) => Ok(answers_view(v@)),
        Err(e) => Err(e@),
    }
}

pub open spec fn unit_result_view(r: Result<(), QuestionStateError>) -> Result<(), StateErrorView> {
    match r {
        Ok(()) => Ok(()),
        Err(e) => Err(e@),
    }
}

pub enum TerminalStateView {
    Pending,
    Resolved(ResolutionView),
    Cancelled(Seq<char>),
}

impl View for QuestionTerminalState {
    type V = TerminalStateView;

    open spec fn view(&self) -> TerminalStateView {
        match self {
            QuestionTerminalState::Pending => TerminalStateView::Pending,
            QuestionTerminalState::Resolved(r) => TerminalStateView::Resolved(r@),
            QuestionTerminalState::Cancelled(s) => TerminalStateView::Cancelled(s@),
        }
    }
}

proof fn lemma_request_valid_ids(qs: Seq<SpecView>, i: int)
    requires
        0 <= i,
        questions_error_from(qs, i) is None,
    ensures
        forall|j: int, k: int| i <= j < qs.len() && 0 <= k < j ==> qs[k].id != qs[j].id,
    decreases qs.len() - i,
{
    if i < qs.len() {
        assert(question_error(qs, i) is None);
        lemma_request_valid_ids(qs, i + 1);
    }
}

/// The question ids of a valid request are distinct.
pub proof fn law_valid_requests_have_distinct_question_ids(qs: Seq<SpecView>)
    requires
        request_valid(qs),
    ensures
        0 < qs.len() <= MAX_QUESTIONS,
        forall|j: int, k: int| 0 <= j < qs.len() && 0 <= k < qs.len() && j != k ==> qs[k].id != qs[j].id,
{
    lemma_request_valid_ids(qs, 0);
    assert forall|j: int, k: int| 0 <= j < qs.len() && 0 <= k < qs.len() && j != k implies qs[k].id != qs[j].id by {
        if k > j {
            assert(qs[j].id != qs[k].id);
        }
    }
}

/// Applying answers keeps every filled slot on its own question.
proof fn lemma_draft_update_shape(qs: Seq<SpecView>, d: Seq<Option<AnswerView>>, answers: Seq<AnswerView>, i: int)
    requires
        0 <= i,
        d.len() == qs.len(),
        forall|k: int| 0 <= k < d.len() && (#[trigger] d[k]) is Some ==> d[k]->0.question_id == qs[k].id,
    ensures
        draft_update_from(qs, d, answers, i).0.len() == qs.len(),
        forall|k: int| 0 <= k < qs.len() && (#[trigger] draft_update_from(qs, d, answers, i).0[k]) is Some
            ==> draft_update_from(qs, d, answers, i).0[k]->0.question_id == qs[k].id,
    decreases answers.len() - i,
{
    if i < answers.len() {
        let a = answers[i];
        let qi = question_index(qs, a.question_id);
        lemma_index_from(qs, a.question_id, 0);
        if !(exists|k: int| 0 <= k < i && (#[trigger] answers[k]).question_id == a.question_id) && qi >= 0
            && answer_error(qs[qi], a, true) is None {
            let d2 = d.update(qi, draft_slot(a));
            assert forall|k: int| 0 <= k < d2.len() && (#[trigger] d2[k]) is Some implies d2[k]->0.question_id == qs[k].id by {
                if k != qi {
                    assert(d2[k] == d[k]);
                }
            }
            lemma_draft_update_shape(qs, d2, answers, i + 1);
        }
    }
}

impl QuestionInteraction {
    #[verifier::type_invariant]
    spec fn inv(self) -> bool {
        &&& request_valid(self.invocation.request@)
        &&& self.draft@.len() == self.invocation.request.questions@.len()
        &&& forall|k: int| 0 <= k < self.draft@.len() && (#[trigger] self.draft@[k]) is Some
            ==> self.draft@[k]->0.question_id@ == self.invocation.request.questions@[k].id@
    }

    pub fn new(invocation: QuestionInvocation) -> (r: Result<Self, QuestionValidationError>)
        ensures
            r is Ok <==> request_valid(invocation.request@),
            r matches Err(e) ==> request_error(invocation.request@) == Some(e@),
            r matches Ok(s) ==> interaction_wf(s@),
            r matches Ok(s) ==> s@ == (InteractionView {
                interaction_id: invocation.interaction_id@,
                execution_id: invocation.execution_id@,
                request: invocation.request@,
                draft: empty_slots(invocation.request@.len()),
                terminal: None,
            }),
    {
        match invocation.request.validate() {
            Err(e) => {
                return Err(e);
            },
            Ok(()) => {},
        }
        let n = invocation.request.questions.len();
        let mut draft: Vec<Option<QuestionAnswer>> = Vec::new();
        let mut k: usize = 0;
        while k < n
            invariant
                k <= n,
                draft@.len() == k,
                forall|j: int| 0 <= j < k ==> (#[trigger] draft@[j]) is None,
            decreases n - k,
        {
            draft.push(None);
            k = k + 1;
        }
        assert(slots_view(draft@) =~= empty_slots(invocation.request@.len()));
        let s = QuestionInteraction { invocation, draft, terminal: None };
        assert(interaction_wf(s@));
        Ok(s)
    }

    pub fn invocation(&self) -> (r: &QuestionInvocation)
        ensures
            r.interaction_id@ == self@.interaction_id,
            r.execution_id@ == self@.execution_id,
            r.request@ == self@.request,
    {
        &self.invocation
    }

    /// The draft answers in question order.
    pub fn draft(&self) -> (r: Vec<QuestionAnswer>)
        ensures
            answers_view(r@) == draft_list(self@.draft),
    {
        slot_answers(&self.draft)
    }

    pub fn terminal_state(&self) -> (r: QuestionTerminalState)
        ensures
            r@ == match self@.terminal {
                None => TerminalStateView::Pending,
                Some(TerminalView::Resolved(res)) => TerminalStateView::Resolved(res),
                Some(TerminalView::Cancelled(reason)) => TerminalStateView::Cancelled(reason),
            },
    {
        match &self.terminal {
            None => QuestionTerminalState::Pending,
            Some(InteractionTerminal::Resolved(resolution)) => QuestionTerminalState::Resolved(copy_resolution(resolution)),
            Some(InteractionTerminal::Cancelled(reason)) => QuestionTerminalState::Cancelled(reason.clone()),
        }
    }

    fn ensure_pending(&self) -> (r: Result<(), QuestionStateError>)
        ensures
            match pending_error(self@) {
                None => r is Ok,
                Some(e) => r matches Err(x) && x@ == e,
            },
    {
        match self.terminal {
            None => Ok(()),
            Some(InteractionTerminal::Resolved(_)) => Err(QuestionStateError::AlreadyResolved),
            Some(InteractionTerminal::Cancelled(_)) => Err(QuestionStateError::Cancelled),
        }
    }

    fn question(&self, id: &String) -> (r: Result<usize, QuestionStateError>)
        ensures
            match r {
                Ok(k) => k < self@.request.len() && k as int == question_index(self@.request, id@),
                Err(e) => question_index(self@.request, id@) < 0 && e@ == StateErrorView::UnknownQuestion(id@),
            },
    {
        match find_question(&self.invocation.request.questions, id) {
            Some(k) => Ok(k),
            None => Err(QuestionStateError::UnknownQuestion(id.clone())),
        }
    }

    /// Merges answers into the draft slots, stopping at the first rejected
    /// answer (earlier answers stay merged).
    fn merge_answers(&mut self, answers: &Vec<QuestionAnswer>) -> (r: Option<QuestionStateError>)
        requires
            pending_error(old(self)@) is None,
        ensures
            ({
                let (d, e) = draft_update_from(old(self)@.request, old(self)@.draft, answers_view(answers@), 0);
                &&& final(self)@ == InteractionView { draft: d, ..old(self)@ }
                &&& match r {
                    Some(x) => e == Some(x@),
                    None => e is None,
                }
            }),
    {
        proof { use_type_invariant(&*self); }
        let ghost s0 = self@;
        let ghost av = answers_view(answers@);
        let qs = &self.invocation.request.questions;
        let ghost qsv = specs_view(qs@);
        assert(qsv == s0.request);
        let mut d: Vec<Option<QuestionAnswer>> = Vec::new();
        let mut k: usize = 0;
        while k < self.draft.len()
            invariant
                k <= self.draft@.len(),
                self.inv(),
                self@ == s0,
                s0 == old(self)@,
                d@.len() == k,
                forall|j: int| 0 <= j < k ==> ((#[trigger] d@[j]) is Some <==> self.draft@[j] is Some),
                forall|j: int| 0 <= j < k && (#[trigger] d@[j]) is Some ==> d@[j]->0@ == self.draft@[j]->0@,
            decreases self.draft.len() - k,
        {
            match &self.draft[k] {
                Some(a) => d.push(Some(copy_answer(a))),
                None => d.push(None),
            }
            k = k + 1;
        }
        assert(slots_view(d@) =~= s0.draft);
        let mut i: usize = 0;
        while i < answers.len()
            invariant
                i <= answers@.len(),
                av == answers_view(answers@),
                qsv == specs_view(qs@),
                qsv == s0.request,
                request_valid(qsv),
                self.inv(),
                self@ == s0,
                s0 == old(self)@,
                qs@ == self.invocation.request.questions@,
                d@.len() == qs@.len(),
                forall|j: int| 0 <= j < d@.len() && (#[trigger] d@[j]) is Some ==> d@[j]->0.question_id@ == qs@[j].id@,
                draft_update_from(qsv, s0.draft, av, 0) == draft_update_from(qsv, slots_view(d@), av, i as int),
            decreases answers.len() - i,
        {
            let a = &answers[i];
            assert(av[i as int] == a@);
            let ghost dd = slots_view(d@);
            if has_earlier_answer(answers, i) {
                assert(draft_update_from(qsv, dd, av, i as int) == (dd, Some(StateErrorView::DuplicateAnswer(a@.question_id))));
                self.draft = d;
                return Some(QuestionStateError::DuplicateAnswer(a.question_id.clone()));
            }
            match find_question(qs, &a.question_id) {
                None => {
                    assert(draft_update_from(qsv, dd, av, i as int) == (dd, Some(StateErrorView::UnknownQuestion(a@.question_id))));
                    self.draft = d;
                    return Some(QuestionStateError::UnknownQuestion(a.question_id.clone()));
                },
                Some(qi) => {
                    let q = &qs[qi];
                    assert(qsv[qi as int] == q@);
                    match check_answer(q, a, true) {
                        Some(e) => {
                            assert(draft_update_from(qsv, dd, av, i as int) == (dd, Some(e@)));
                            self.draft = d;
                            return Some(e);
                        },
                        None => {},
                    }
                    proof { lemma_index_from(qsv, a@.question_id, 0); }
                    let keep = a.selected_option_id.is_some() || answer_has_text(a);
                    let ghost before = d@;
                    if keep {
                        d.set(qi, Some(copy_answer(a)));
                    } else {
                        d.set(qi, None);
                    }
                    proof {
                        let slot = if a@.selected is None && !has_text(a@) { None } else { Some(a@) };
                        assert(slots_view(d@) =~= slots_view(before).update(qi as int, slot));
                        assert forall|j: int| 0 <= j < d@.len() && (#[trigger] d@[j]) is Some implies d@[j]->0.question_id@ == qs@[j].id@ by {
                            if j != qi {
                                assert(d@[j] == before[j]);
                            } else {
                                assert(qsv[j].id == qs@[j].id@);
                            }
                        }
                    }
                },
            }
            i = i + 1;
        }
        self.draft = d;
        None
    }

    /// Merge a partial draft. Closing the UI leaves the interaction pending
    /// with this draft.
    pub fn update_draft(&mut self, answers: Vec<QuestionAnswer>) -> (r: Result<Vec<QuestionAnswer>, QuestionStateError>)
        ensures
            (final(self)@, answers_result_view(r)) == update_draft_spec(old(self)@, answers_view(answers@)),
    {
        match self.ensure_pending() {
            Err(e) => {
                return Err(e);
            },
            Ok(()) => {},
        }
        match self.merge_answers(&answers) {
            Some(e) => Err(e),
            None => Ok(self.draft()),
        }
    }

    /// UI dismissal is not a resolution: draft and pending state remain.
    pub fn dismiss(&self) -> (r: Result<Vec<QuestionAnswer>, QuestionStateError>)
        ensures
            answers_result_view(r) == dismiss_spec(self@),
    {
        match self.ensure_pending() {
            Err(e) => {
                return Err(e);
            },
            Ok(()) => {},
        }
        Ok(self.draft())
    }

    pub fn resolve(&mut self, action: ResolveAction, answers: Vec<QuestionAnswer>) -> (r: Result<QuestionResolution, QuestionStateError>)
        ensures
            (final(self)@, state_result_view(r)) == resolve_spec(old(self)@, action, answers_view(answers@)),
    {
        match &self.terminal {
            Some(InteractionTerminal::Resolved(existing)) => {
                let requested = build_resolution(&self.invocation.request, action, &answers);
                return match requested {
                    Err(e) => Err(e),
                    Ok(requested) => {
                        if resolution_eq(existing, &requested) {
                            Ok(copy_resolution(existing))
                        } else {
                            Err(QuestionStateError::AlreadyResolved)
                        }
                    },
                };
            },
            Some(InteractionTerminal::Cancelled(_)) => {
                return Err(QuestionStateError::Cancelled);
            },
            None => {},
        }
        match self.merge_answers(&answers) {
            Some(e) => {
                return Err(e);
            },
            None => {},
        }
        let current = self.draft();
        match build_resolution(&self.invocation.request, action, &current) {
            Err(e) => Err(e),
            Ok(resolution) => {
                proof { use_type_invariant(&*self); }
                self.terminal = Some(InteractionTerminal::Resolved(copy_resolution(&resolution)));
                Ok(resolution)
            },
        }
    }

    pub fn cancel(&mut self, reason: String) -> (r: Result<(), QuestionStateError>)
        ensures
            (final(self)@, unit_result_view(r)) == cancel_spec(old(self)@, reason@),
    {
        proof { use_type_invariant(&*self); }
        match &self.terminal {
            None => {
                self.terminal = Some(InteractionTerminal::Cancelled(reason));
                Ok(())
            },
            Some(InteractionTerminal::Cancelled(existing)) => {
                if *existing == reason {
                    Ok(())
                } else {
                    Err(QuestionStateError::Cancelled)
                }
            },
            Some(InteractionTerminal::Resolved(_)) => Err(QuestionStateError::AlreadyResolved),
        }
    }
}


// ---------------------------------------------------------------------------
// Laws
// ---------------------------------------------------------------------------

proof fn lemma_counts(qs: Seq<SpecView>, by: Seq<Option<AnswerView>>, n: int)
    requires
        0 <= n <= qs.len(),
        by.len() == qs.len(),
    ensures
        unanswered_upto(qs, by, n).len() + resolved_upto(qs, by, n).len() == n,
        forall|k: int| 0 <= k < resolved_upto(qs, by, n).len() ==> (exists|j: int| 0 <= j < n && by[j] is Some
            && (#[trigger] resolved_upto(qs, by, n)[k]) == resolved_answer(qs[j], by[j]->0)),
    decreases n,
{
    if n > 0 {
        lemma_counts(qs, by, n - 1);
        let prev = resolved_upto(qs, by, n - 1);
        assert forall|k: int| 0 <= k < resolved_upto(qs, by, n).len() implies (exists|j: int| 0 <= j < n && by[j] is Some
            && (#[trigger] resolved_upto(qs, by, n)[k]) == resolved_answer(qs[j], by[j]->0)) by {
            if k < prev.len() {
                assert(resolved_upto(qs, by, n)[k] == prev[k]);
                let j = choose|j: int| 0 <= j < n - 1 && by[j] is Some && prev[k] == resolved_answer(qs[j], by[j]->0);
                assert(0 <= j < n && by[j] is Some && resolved_upto(qs, by, n)[k] == resolved_answer(qs[j], by[j]->0));
            } else {
                assert(by[n - 1] is Some);
            }
        }
    }
}

/// Every resolution accounts for each question exactly once: answered
/// questions appear in `answers`, the rest in `unanswered`, and the status
/// says which of the two lists is empty. A submitted resolution leaves no
/// question unanswered, and answers every question of a non-empty request.
pub proof fn law_resolution_accounts_for_every_question(qs: Seq<SpecView>, action: ResolveAction, answers: Seq<AnswerView>)
    requires
        build_spec(qs, action, answers) is Ok,
    ensures
        ({
            let r = build_spec(qs, action, answers)->Ok_0;
            &&& r.answers.len() + r.unanswered.len() == qs.len()
            &&& r.action == action
            &&& (r.status == ResolutionStatus::Skipped <==> r.answers.len() == 0)
            &&& (r.status == ResolutionStatus::Answered <==> (r.answers.len() > 0 && r.unanswered.len() == 0))
            &&& (r.status == ResolutionStatus::PartiallyAnswered <==> (r.answers.len() > 0 && r.unanswered.len() > 0))
            &&& (action == ResolveAction::Submit ==> r.unanswered.len() == 0)
            &&& (action == ResolveAction::Submit && qs.len() > 0 ==> r.status == ResolutionStatus::Answered)
        }),
{
    lemma_collect_len(qs, answers, 0, empty_slots(qs.len()));
    let by = collect_from(qs, answers, 0, empty_slots(qs.len()))->Ok_0;
    lemma_counts(qs, by, qs.len() as int);
}

/// Ids of the first `n` questions whose mark is `want`, in question order.
pub open spec fn ids_marked(qs: Seq<SpecView>, marks: Seq<bool>, want: bool, n: int) -> Seq<Seq<char>>
    decreases n,
{
    if n <= 0 {
        Seq::empty()
    } else {
        let prev = ids_marked(qs, marks, want, n - 1);
        if marks[n - 1] == want { prev.push(qs[n - 1].id) } else { prev }
    }
}

proof fn lemma_marked(qs: Seq<SpecView>, by: Seq<Option<AnswerView>>, n: int)
    requires
        0 <= n <= qs.len(),
        by.len() == qs.len(),
    ensures
        resolved_upto(qs, by, n).map_values(|a: ResolvedView| a.question_id)
            =~= ids_marked(qs, by.map_values(|o: Option<AnswerView>| o is Some), true, n),
        unanswered_upto(qs, by, n) =~= ids_marked(qs, by.map_values(|o: Option<AnswerView>| o is Some), false, n),
    decreases n,
{
    if n > 0 {
        lemma_marked(qs, by, n - 1);
        let prev = resolved_upto(qs, by, n - 1);
        if by[n - 1] is Some {
            let a = resolved_answer(qs[n - 1], by[n - 1]->0);
            assert(prev.push(a).map_values(|a: ResolvedView| a.question_id)
                =~= prev.map_values(|a: ResolvedView| a.question_id).push(a.question_id));
        }
    }
}

/// Each slot that collection fills holds one of the submitted answers, to
/// its own question, with a selection or text.
proof fn lemma_collect_slots(qs: Seq<SpecView>, answers: Seq<AnswerView>, i: int, by: Seq<Option<AnswerView>>)
    requires
        0 <= i,
        by.len() == qs.len(),
        forall|j: int| 0 <= j < by.len() && (#[trigger] by[j]) is Some ==> exists|m: int| 0 <= m < answers.len()
            && by[j]->0 == #[trigger] answers[m] && answers[m].question_id == qs[j].id
            && (answers[m].selected is Some || has_text(answers[m])),
    ensures
        collect_from(qs, answers, i, by) matches Ok(b) ==> forall|j: int| 0 <= j < b.len() && (#[trigger] b[j]) is Some
            ==> exists|m: int| 0 <= m < answers.len()
            && b[j]->0 == #[trigger] answers[m] && answers[m].question_id == qs[j].id
            && (answers[m].selected is Some || has_text(answers[m])),
    decreases answers.len() - i,
{
    if i < answers.len() {
        let a = answers[i];
        let qi = question_index(qs, a.question_id);
        lemma_index_from(qs, a.question_id, 0);
        if qi >= 0 && answer_error(qs[qi], a, false) is None && by[qi] is None {
            let b2 = by.update(qi, Some(a));
            assert forall|j: int| 0 <= j < b2.len() && (#[trigger] b2[j]) is Some implies exists|m: int| 0 <= m < answers.len()
                && b2[j]->0 == #[trigger] answers[m] && answers[m].question_id == qs[j].id
                && (answers[m].selected is Some || has_text(answers[m])) by {
                if j == qi {
                    assert(b2[j]->0 == answers[i]);
                } else {
                    assert(b2[j] == by[j]);
                }
            }
            lemma_collect_slots(qs, answers, i + 1, b2);
        }
    }
}

/// A resolution splits the request's question ids in two, each part in
/// request order: the ids of its answers and its unanswered ids. Each
/// resolved answer comes from a submitted answer to its question: same
/// selection, the chosen option's label, the custom text trimmed (none
/// when blank), the question's destination; and it selects or says
/// something.
pub proof fn law_resolution_partitions_the_questions(qs: Seq<SpecView>, action: ResolveAction, answers: Seq<AnswerView>)
    requires
        build_spec(qs, action, answers) is Ok,
    ensures
        ({
            let r = build_spec(qs, action, answers)->Ok_0;
            &&& exists|marks: Seq<bool>| #![trigger ids_marked(qs, marks, true, qs.len() as int)]
                marks.len() == qs.len()
                && r.answers.map_values(|a: ResolvedView| a.question_id) == ids_marked(qs, marks, true, qs.len() as int)
                && r.unanswered == ids_marked(qs, marks, false, qs.len() as int)
            &&& forall|k: int| 0 <= k < r.answers.len() ==> exists|j: int, m: int|
                0 <= j < qs.len() && 0 <= m < answers.len()
                && answers[m].question_id == qs[j].id
                && (#[trigger] r.answers[k]) == resolved_answer(qs[j], answers[m])
                && (answers[m].selected is Some || has_text(answers[m]))
        }),
{
    let e = empty_slots(qs.len());
    lemma_collect_len(qs, answers, 0, e);
    lemma_collect_slots(qs, answers, 0, e);
    let by = collect_from(qs, answers, 0, e)->Ok_0;
    let r = build_spec(qs, action, answers)->Ok_0;
    lemma_counts(qs, by, qs.len() as int);
    lemma_marked(qs, by, qs.len() as int);
    let marks = by.map_values(|o: Option<AnswerView>| o is Some);
    assert(marks.len() == qs.len()
        && r.answers.map_values(|a: ResolvedView| a.question_id) == ids_marked(qs, marks, true, qs.len() as int)
        && r.unanswered == ids_marked(qs, marks, false, qs.len() as int));
    assert forall|k: int| 0 <= k < r.answers.len() implies exists|j: int, m: int|
        0 <= j < qs.len() && 0 <= m < answers.len()
        && answers[m].question_id == qs[j].id
        && (#[trigger] r.answers[k]) == resolved_answer(qs[j], answers[m])
        && (answers[m].selected is Some || has_text(answers[m])) by {
        let j = choose|j: int| 0 <= j < qs.len() && by[j] is Some && r.answers[k] == resolved_answer(qs[j], by[j]->0);
        assert(by[j] is Some);
        let m = choose|m: int| 0 <= m < answers.len() && by[j]->0 == answers[m] && answers[m].question_id == qs[j].id
            && (answers[m].selected is Some || has_text(answers[m]));
        assert(r.answers[k] == resolved_answer(qs[j], answers[m]));
    }
}

proof fn lemma_collect_len(qs: Seq<SpecView>, answers: Seq<AnswerView>, i: int, by: Seq<Option<AnswerView>>)
    requires
        0 <= i,
        by.len() == qs.len(),
    ensures
        collect_from(qs, answers, i, by) matches Ok(b) ==> b.len() == qs.len(),
    decreases answers.len() - i,
{
    if i < answers.len() {
        let a = answers[i];
        let qi = question_index(qs, a.question_id);
        lemma_index_from(qs, a.question_id, 0);
        if qi >= 0 && answer_error(qs[qi], a, false) is None && by[qi] is None {
            lemma_collect_len(qs, answers, i + 1, by.update(qi, Some(a)));
        }
    }
}

/// Continuing without any answer is a successful skip that lists every
/// question as unanswered.
pub proof fn law_continue_without_answers_is_a_skip(qs: Seq<SpecView>)
    requires
        qs.len() > 0,
    ensures
        build_spec(qs, ResolveAction::Continue, Seq::empty()) == Ok::<ResolutionView, StateErrorView>(ResolutionView {
            status: ResolutionStatus::Skipped,
            action: ResolveAction::Continue,
            answers: Seq::empty(),
            unanswered: qs.map_values(|q: SpecView| q.id),
        }),
{
    let by = empty_slots(qs.len());
    assert(collect_from(qs, Seq::empty(), 0, by) == Ok::<Seq<Option<AnswerView>>, StateErrorView>(by));
    lemma_all_unanswered(qs, qs.len() as int);
    lemma_none_resolved(qs, qs.len() as int);
    assert(unanswered_upto(qs, by, qs.len() as int) =~= qs.map_values(|q: SpecView| q.id));
}

proof fn lemma_all_unanswered(qs: Seq<SpecView>, n: int)
    requires
        0 <= n <= qs.len(),
    ensures
        unanswered_upto(qs, empty_slots(qs.len()), n) =~= qs.take(n).map_values(|q: SpecView| q.id),
    decreases n,
{
    if n > 0 {
        lemma_all_unanswered(qs, n - 1);
        assert(qs.take(n).map_values(|q: SpecView| q.id) =~= qs.take(n - 1).map_values(|q: SpecView| q.id).push(qs[n - 1].id));
    }
}

proof fn lemma_none_resolved(qs: Seq<SpecView>, n: int)
    requires
        0 <= n <= qs.len(),
    ensures
        resolved_upto(qs, empty_slots(qs.len()), n) =~= Seq::<ResolvedView>::empty(),
    decreases n,
{
    if n > 0 {
        lemma_none_resolved(qs, n - 1);
    }
}

/// Once an interaction is resolved or cancelled, no operation changes its
/// state or its settlement: the first terminal state wins.
pub proof fn law_terminal_state_is_final(s: InteractionView, action: ResolveAction, answers: Seq<AnswerView>, reason: Seq<char>)
    requires
        s.terminal is Some,
    ensures
        update_draft_spec(s, answers).0 == s,
        update_draft_spec(s, answers).1 is Err,
        resolve_spec(s, action, answers).0 == s,
        cancel_spec(s, reason).0 == s,
        dismiss_spec(s) is Err,
{
}

/// A cancelled interaction rejects late answers; repeating the same
/// cancellation succeeds without change, a different reason is refused.
pub proof fn law_cancellation_is_idempotent(s: InteractionView, reason: Seq<char>, other: Seq<char>, action: ResolveAction, answers: Seq<AnswerView>)
    requires
        s.terminal is None,
        other != reason,
    ensures
        ({
            let (c, r) = cancel_spec(s, reason);
            &&& r == Ok::<(), StateErrorView>(())
            &&& cancel_spec(c, reason) == (c, Ok::<(), StateErrorView>(()))
            &&& cancel_spec(c, other) == (c, Err::<(), StateErrorView>(StateErrorView::Cancelled))
            &&& resolve_spec(c, action, answers) == (c, Err::<ResolutionView, StateErrorView>(StateErrorView::Cancelled))
            &&& update_draft_spec(c, answers) == (c, Err::<Seq<AnswerView>, StateErrorView>(StateErrorView::Cancelled))
        }),
{
}

/// After a resolution, repeating a request whose answers build the same
/// resolution returns it again; any other well-formed request is refused
/// with `AlreadyResolved`, and the state never changes.
pub proof fn law_resolution_is_idempotent(s: InteractionView, action: ResolveAction, answers: Seq<AnswerView>, action2: ResolveAction, answers2: Seq<AnswerView>)
    requires
        s.terminal is None,
        resolve_spec(s, action, answers).1 is Ok,
    ensures
        ({
            let (s2, r) = resolve_spec(s, action, answers);
            let res = r->Ok_0;
            &&& s2.terminal == Some(TerminalView::Resolved(res))
            &&& resolve_spec(s2, action2, answers2).0 == s2
            &&& build_spec(s.request, action2, answers2) == Ok::<ResolutionView, StateErrorView>(res)
                ==> resolve_spec(s2, action2, answers2).1 == Ok::<ResolutionView, StateErrorView>(res)
            &&& (build_spec(s.request, action2, answers2) is Ok && build_spec(s.request, action2, answers2) != Ok::<ResolutionView, StateErrorView>(res))
                ==> resolve_spec(s2, action2, answers2).1 == Err::<ResolutionView, StateErrorView>(StateErrorView::AlreadyResolved)
        }),
{
}

/// Dismissing is not a resolution: a merged draft survives and is what a
/// later dismiss reports.
pub proof fn law_draft_survives_dismiss(s: InteractionView, answers: Seq<AnswerView>)
    requires
        update_draft_spec(s, answers).1 is Ok,
    ensures
        update_draft_spec(s, answers).0.terminal is None,
        dismiss_spec(update_draft_spec(s, answers).0) == update_draft_spec(s, answers).1,
{
}

/// Every operation keeps a well-formed interaction well formed.
pub proof fn law_operations_preserve_wf(s: InteractionView, action: ResolveAction, answers: Seq<AnswerView>, reason: Seq<char>)
    requires
        interaction_wf(s),
    ensures
        interaction_wf(update_draft_spec(s, answers).0),
        interaction_wf(resolve_spec(s, action, answers).0),
        interaction_wf(cancel_spec(s, reason).0),
{
    lemma_draft_update_shape(s.request, s.draft, answers, 0);
}

/// In a request with distinct ids, the question with id `qs[k].id` is `k`.
proof fn lemma_question_index_of_distinct(qs: Seq<SpecView>, k: int)
    requires
        0 <= k < qs.len(),
        forall|a: int, b: int| 0 <= a < qs.len() && 0 <= b < qs.len() && a != b ==> qs[a].id != qs[b].id,
    ensures
        question_index(qs, qs[k].id) == k,
{
    lemma_index_from(qs, qs[k].id, 0);
}

proof fn lemma_merge(qs: Seq<SpecView>, d: Seq<Option<AnswerView>>, answers: Seq<AnswerView>, i: int)
    requires
        0 <= i <= answers.len(),
        d.len() == qs.len(),
        forall|m1: int, m2: int| 0 <= m1 < m2 < answers.len() ==> answers[m1].question_id != answers[m2].question_id,
        forall|m: int| 0 <= m < answers.len() ==> question_index(qs, (#[trigger] answers[m]).question_id) >= 0
            && answer_error(qs[question_index(qs, answers[m].question_id)], answers[m], true) is None,
    ensures
        draft_update_from(qs, d, answers, i).1 is None,
        draft_update_from(qs, d, answers, i).0.len() == qs.len(),
        forall|m: int| i <= m < answers.len() ==>
            draft_update_from(qs, d, answers, i).0[question_index(qs, (#[trigger] answers[m]).question_id)] == draft_slot(answers[m]),
        forall|k: int| 0 <= k < qs.len() && (forall|m: int| i <= m < answers.len() ==> question_index(qs, (#[trigger] answers[m]).question_id) != k)
            ==> draft_update_from(qs, d, answers, i).0[k] == d[k],
    decreases answers.len() - i,
{
    if i < answers.len() {
        let a = answers[i];
        let qi = question_index(qs, a.question_id);
        lemma_index_from(qs, a.question_id, 0);
        assert(!(exists|k: int| 0 <= k < i && (#[trigger] answers[k]).question_id == a.question_id));
        let d2 = d.update(qi, draft_slot(a));
        lemma_merge(qs, d2, answers, i + 1);
        let r = draft_update_from(qs, d2, answers, i + 1).0;
        assert(draft_update_from(qs, d, answers, i).0 == r);
        assert forall|m: int| i < m < answers.len() implies question_index(qs, (#[trigger] answers[m]).question_id) != qi by {
            lemma_index_from(qs, answers[m].question_id, 0);
        }
        assert(r[qi] == d2[qi]);
        assert forall|k: int| 0 <= k < qs.len() && (forall|m: int| i <= m < answers.len() ==> question_index(qs, (#[trigger] answers[m]).question_id) != k)
            implies r[k] == d[k] by {
            assert(question_index(qs, answers[i].question_id) != k);
            assert(r[k] == d2[k]);
        }
    }
}

/// Merging answers into a pending draft, when they name distinct questions
/// and each passes the draft checks, succeeds with the merged draft: each
/// named question's slot becomes its answer, or is cleared by an answer
/// that neither selects nor says anything; every other slot is unchanged,
/// and the interaction stays pending.
pub proof fn law_draft_merges_each_answer(s: InteractionView, answers: Seq<AnswerView>)
    requires
        interaction_wf(s),
        s.terminal is None,
        forall|m1: int, m2: int| 0 <= m1 < m2 < answers.len() ==> answers[m1].question_id != answers[m2].question_id,
        forall|m: int| 0 <= m < answers.len() ==> exists|k: int| 0 <= k < s.request.len()
            && s.request[k].id == (#[trigger] answers[m]).question_id && answer_error(s.request[k], answers[m], true) is None,
    ensures
        update_draft_spec(s, answers).1 == Ok::<Seq<AnswerView>, StateErrorView>(draft_list(update_draft_spec(s, answers).0.draft)),
        update_draft_spec(s, answers).0 == (InteractionView { draft: update_draft_spec(s, answers).0.draft, ..s }),
        update_draft_spec(s, answers).0.draft.len() == s.draft.len(),
        forall|k: int, m: int| 0 <= k < s.request.len() && 0 <= m < answers.len() && s.request[k].id == answers[m].question_id
            ==> update_draft_spec(s, answers).0.draft[k] == draft_slot(answers[m]),
        forall|k: int| 0 <= k < s.request.len() && (forall|m: int| 0 <= m < answers.len() ==> (#[trigger] answers[m]).question_id != s.request[k].id)
            ==> update_draft_spec(s, answers).0.draft[k] == s.draft[k],
{
    let qs = s.request;
    law_valid_requests_have_distinct_question_ids(qs);
    assert forall|m: int| 0 <= m < answers.len() implies question_index(qs, (#[trigger] answers[m]).question_id) >= 0
        && answer_error(qs[question_index(qs, answers[m].question_id)], answers[m], true) is None by {
        let k = choose|k: int| 0 <= k < qs.len() && qs[k].id == answers[m].question_id && answer_error(qs[k], answers[m], true) is None;
        lemma_question_index_of_distinct(qs, k);
    }
    lemma_merge(qs, s.draft, answers, 0);
    let d = draft_update_from(qs, s.draft, answers, 0).0;
    assert forall|k: int, m: int| 0 <= k < qs.len() && 0 <= m < answers.len() && qs[k].id == answers[m].question_id
        implies d[k] == draft_slot(answers[m]) by {
        lemma_question_index_of_distinct(qs, k);
        assert(d[question_index(qs, answers[m].question_id)] == draft_slot(answers[m]));
    }
    assert forall|k: int| 0 <= k < qs.len() && (forall|m: int| 0 <= m < answers.len() ==> (#[trigger] answers[m]).question_id != qs[k].id)
        implies d[k] == s.draft[k] by {
        assert forall|m: int| 0 <= m < answers.len() implies question_index(qs, (#[trigger] answers[m]).question_id) != k by {
            lemma_index_from(qs, answers[m].question_id, 0);
        }
    }
}

/// The checks one option must pass on its own.
pub open spec fn option_fields_valid(o: OptionView) -> bool {
    &&& valid_identifier(o.id)
    &&& valid_text(o.label, MAX_LABEL_CHARS as nat)
    &&& (o.description is Some ==> o.description->0.len() <= MAX_DESCRIPTION_CHARS)
}

/// The checks one question must pass on its own: its fields, an answer
/// mode, at most three options, each valid, with distinct ids and distinct
/// trimmed labels, and at most one recommended.
pub open spec fn question_fields_valid(q: SpecView) -> bool {
    &&& valid_identifier(q.id)
    &&& valid_text(q.header, MAX_HEADER_CHARS as nat)
    &&& valid_text(q.question, MAX_QUESTION_CHARS as nat)
    &&& q.options.len() <= MAX_OPTIONS_PER_QUESTION
    &&& (q.options.len() > 0 || q.allow_custom)
    &&& forall|j: int| 0 <= j < q.options.len() ==> option_fields_valid(#[trigger] q.options[j])
    &&& forall|j: int, k: int| 0 <= j < k < q.options.len() ==> (#[trigger] q.options[j]).id != (#[trigger] q.options[k]).id
    &&& forall|j: int, k: int| 0 <= j < k < q.options.len() ==> trim((#[trigger] q.options[j]).label) != trim((#[trigger] q.options[k]).label)
    &&& recommended_count(q.options, q.options.len() as int) <= 1
}

proof fn lemma_options_from(q: SpecView, qi: nat, j: int)
    requires
        0 <= j,
    ensures
        options_error_from(q, qi, j) is None <==> forall|k: int| j <= k < q.options.len() ==> (#[trigger] option_error(q, qi, k)) is None,
    decreases q.options.len() - j,
{
    if j < q.options.len() {
        lemma_options_from(q, qi, j + 1);
    }
}

proof fn lemma_questions_from(qs: Seq<SpecView>, i: int)
    requires
        0 <= i,
    ensures
        questions_error_from(qs, i) is None <==> forall|k: int| i <= k < qs.len() ==> (#[trigger] question_error(qs, k)) is None,
    decreases qs.len() - i,
{
    if i < qs.len() {
        lemma_questions_from(qs, i + 1);
    }
}

proof fn lemma_options_valid(q: SpecView, qi: nat)
    ensures
        options_error_from(q, qi, 0) is None <==> {
            &&& forall|j: int| 0 <= j < q.options.len() ==> option_fields_valid(#[trigger] q.options[j])
            &&& forall|j: int, k: int| 0 <= j < k < q.options.len() ==> (#[trigger] q.options[j]).id != (#[trigger] q.options[k]).id
            &&& forall|j: int, k: int| 0 <= j < k < q.options.len() ==> trim((#[trigger] q.options[j]).label) != trim((#[trigger] q.options[k]).label)
        },
{
    lemma_options_from(q, qi, 0);
    let os = q.options;
    if options_error_from(q, qi, 0) is None {
        assert forall|j: int| 0 <= j < os.len() implies option_fields_valid(#[trigger] os[j]) by {
            assert(option_error(q, qi, j) is None);
        }
        assert forall|j: int, k: int| 0 <= j < k < os.len() implies (#[trigger] os[j]).id != (#[trigger] os[k]).id
            && trim(os[j].label) != trim(os[k].label) by {
            assert(option_error(q, qi, k) is None);
        }
    } else {
        let k = choose|k: int| 0 <= k < os.len() && (#[trigger] option_error(q, qi, k)) is Some;
        if option_fields_valid(os[k]) {
            let m = choose|m: int| 0 <= m < k && ((#[trigger] os[m]).id == os[k].id || trim(os[m].label) == trim(os[k].label));
            assert(os[m] == os[m] && os[k] == os[k]);
        }
    }
}

proof fn lemma_question_valid(qs: Seq<SpecView>, i: int)
    requires
        0 <= i < qs.len(),
    ensures
        question_error(qs, i) is None <==> question_fields_valid(qs[i]) && forall|k: int| 0 <= k < i ==> (#[trigger] qs[k]).id != qs[i].id,
{
    lemma_options_valid(qs[i], i as nat);
}

/// `AskUserQuestionRequest::validate` accepts exactly the requests with one
/// to three questions, distinct question ids, and every question valid on
/// its own.
pub proof fn law_valid_requests_are_exactly_these(qs: Seq<SpecView>)
    ensures
        request_valid(qs) <==> {
            &&& 1 <= qs.len() <= MAX_QUESTIONS
            &&& forall|j: int, k: int| 0 <= j < k < qs.len() ==> (#[trigger] qs[j]).id != (#[trigger] qs[k]).id
            &&& forall|i: int| 0 <= i < qs.len() ==> question_fields_valid(#[trigger] qs[i])
        },
{
    lemma_questions_from(qs, 0);
    if request_valid(qs) {
        assert forall|j: int, k: int| 0 <= j < k < qs.len() implies (#[trigger] qs[j]).id != (#[trigger] qs[k]).id by {
            assert(question_error(qs, k) is None);
            lemma_question_valid(qs, k);
        }
        assert forall|i: int| 0 <= i < qs.len() implies question_fields_valid(#[trigger] qs[i]) by {
            assert(question_error(qs, i) is None);
            lemma_question_valid(qs, i);
        }
    } else if 1 <= qs.len() <= MAX_QUESTIONS {
        let i = choose|i: int| 0 <= i < qs.len() && (#[trigger] question_error(qs, i)) is Some;
        lemma_question_valid(qs, i);
        if question_fields_valid(qs[i]) {
            let k = choose|k: int| 0 <= k < i && (#[trigger] qs[k]).id == qs[i].id;
            assert(qs[k] == qs[k] && qs[i] == qs[i]);
        }
    }
}

} // verus!
