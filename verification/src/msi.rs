//! Version information of an MSI package: what is asked of its database, and
//! what the answers mean.
use crate::evidence::{msi_arch_token, template_token};
use crate::text::{
    decimal, decimal_text, is_white, law_blank_texts_are_trimmed_away, push_chars, push_text,
    string_of, trim, trim_text,
};
use crate::utf16::{
    before_null, decode, encode, from_utf16_lossy, law_null_ends_a_text, law_wide_round_trip,
    until_null,
};
use crate::versioninfo::{
    empty_info, info_result, parse_version_parts, string_view, version_components, FixedFileInfo,
    FixedView, InfoView, VersionInfo,
};
use vstd::prelude::*;

verus! {

/// Return code of a call that succeeded.
pub const ERROR_SUCCESS: u32 = 0;

/// A return code on which a summary property counts as not being there.
pub const ERROR_UNKNOWN_PROPERTY: u32 = 160;

/// Return code of a fetch behind the last record.
pub const ERROR_NO_MORE_ITEMS: u32 = 259;

/// Number of the `Template` property in the summary information.
pub const PID_TEMPLATE: u32 = 7;

/// The properties that are asked for, in order.
pub const PROPERTY_KEYS: [&'static str; 6] = [
    "ProductName",
    "ProductVersion",
    "Manufacturer",
    "ProductCode",
    "ARPCOMMENTS",
    "Subject",
];

// ---------------------------------------------------------------------
// Calls and their return codes
// ---------------------------------------------------------------------

/// The calls that can fail.
#[derive(Debug, Clone, Copy, PartialEq, Eq, Structural)]
pub enum MsiCall {
    OpenDatabase,
    OpenView,
    ExecuteView,
    FetchRecord,
    ReadLength,
    ReadString,
    OpenSummary,
    ReadSummary,
}

/// What a call was to do, for its error text.
pub open spec fn purpose(call: MsiCall) -> Seq<char> {
    match call {
        MsiCall::OpenDatabase => "open MSI database"@,
        MsiCall::OpenView => "open MSI view"@,
        MsiCall::ExecuteView => "execute MSI view"@,
        MsiCall::FetchRecord => "fetch MSI record"@,
        MsiCall::ReadLength => "read MSI string length"@,
        MsiCall::ReadString => "read MSI string"@,
        MsiCall::OpenSummary => "open MSI summary information"@,
        MsiCall::ReadSummary => "read MSI summary property"@,
    }
}

/// The error text of a call that returned the given code.
pub open spec fn failure_text(call: MsiCall, rc: u32) -> Seq<char> {
    "failed to "@ + purpose(call) + " (error "@ + decimal(rc as nat) + ")"@
}

fn purpose_name(call: MsiCall) -> (s: &'static str)
    ensures
        s@ == purpose(call),
{
    match call {
        MsiCall::OpenDatabase => "open MSI database",
        MsiCall::OpenView => "open MSI view",
        MsiCall::ExecuteView => "execute MSI view",
        MsiCall::FetchRecord => "fetch MSI record",
        MsiCall::ReadLength => "read MSI string length",
        MsiCall::ReadString => "read MSI string",
        MsiCall::OpenSummary => "open MSI summary information",
        MsiCall::ReadSummary => "read MSI summary property",
    }
}

/// The error text of a call that failed.
pub fn failure(call: MsiCall, rc: u32) -> (text: String)
    ensures
        text@ == failure_text(call, rc),
{
    let mut out: Vec<char> = Vec::new();
    push_text(&mut out, "failed to ");
    push_text(&mut out, purpose_name(call));
    push_text(&mut out, " (error ");
    push_chars(&mut out, decimal_text(rc as u128).as_slice());
    push_text(&mut out, ")");
    string_of(out.as_slice())
}

/// Whether a call succeeded, by its return code.
pub fn check(call: MsiCall, rc: u32) -> (r: Result<(), String>)
    ensures
        match r {
            Ok(_) => rc == ERROR_SUCCESS,
            Err(e) => rc != ERROR_SUCCESS && e@ == failure_text(call, rc),
        },
{
    if rc == ERROR_SUCCESS {
        Ok(())
    } else {
        Err(failure(call, rc))
    }
}

/// The text in a buffer, up to the terminator.
pub open spec fn buffer_text(buffer: Seq<u16>) -> Seq<char> {
    decode(until_null(buffer))
}

/// The text in a buffer, up to the terminator.
fn text_in(buffer: &[u16]) -> (text: String)
    ensures
        text@ == buffer_text(buffer@),
{
    string_of(from_utf16_lossy(before_null(buffer).as_slice()).as_slice())
}

/// The query for the value of a property.
pub open spec fn query_text(property: Seq<char>) -> Seq<char> {
    "SELECT `Value` FROM `Property` WHERE `Property` = '"@ + property + "'"@
}

/// The query for the value of a property.
pub fn property_query(property: &str) -> (query: String)
    ensures
        query@ == query_text(property@),
{
    let mut out: Vec<char> = Vec::new();
    push_text(&mut out, "SELECT `Value` FROM `Property` WHERE `Property` = '");
    push_text(&mut out, property);
    push_text(&mut out, "'");
    string_of(out.as_slice())
}

/// The reply to a call: its return code, the length that it reports, and the
/// buffer that it filled. A call that reports no length or fills no buffer
/// leaves them out.
pub struct MsiReply<'a> {
    pub rc: u32,
    pub len: u32,
    pub buffer: &'a [u16],
}

/// The model of `MsiReply`.
#[verifier::ext_equal]
pub struct ReplyView {
    pub rc: u32,
    pub len: u32,
    pub buffer: Seq<u16>,
}

impl View for MsiReply<'_> {
    type V = ReplyView;

    open spec fn view(&self) -> ReplyView {
        ReplyView { rc: self.rc, len: self.len, buffer: self.buffer@ }
    }
}

/// The answer to the question for a value: none where it is not there.
pub type Answer = Result<Option<String>, String>;

/// The model of an answer.
pub type AnswerView = Result<Option<Seq<char>>, Seq<char>>;

/// The model of an answer.
pub open spec fn answer_view(a: Answer) -> AnswerView {
    match a {
        Ok(v) => Ok(string_view(v)),
        Err(e) => Err(e@),
    }
}

// ---------------------------------------------------------------------
// One property
// ---------------------------------------------------------------------

/// The next call of a query for a property.
#[derive(Debug, Clone, Copy, PartialEq, Eq, Structural)]
pub enum QueryStep {
    /// Open a view with the query.
    OpenView,
    /// Execute the view.
    Execute,
    /// Fetch a record from the view.
    Fetch,
    /// Ask for the length of the record's field.
    ReadLength,
    /// Read the field into a buffer of that many units.
    ReadString(u32),
    /// Close the record.
    CloseRecord,
    /// Close the view.
    CloseView,
    /// Nothing is left to do.
    Done,
}

/// A query for a property, call by call.
pub struct PropertyQuery {
    step: QueryStep,
    answer: Answer,
}

/// The model of `PropertyQuery`.
#[verifier::ext_equal]
pub struct QueryView {
    pub step: QueryStep,
    pub answer: AnswerView,
}

impl View for PropertyQuery {
    type V = QueryView;

    closed spec fn view(&self) -> QueryView {
        QueryView { step: self.step, answer: answer_view(self.answer) }
    }
}

/// A query before its first call.
pub open spec fn query_start() -> QueryView {
    QueryView { step: QueryStep::OpenView, answer: Ok(None) }
}

/// A query after the reply to its next call. A query without a record finds
/// nothing, which is no failure. An empty field needs no read. Whatever
/// fails, what is open is closed.
pub open spec fn query_next(q: QueryView, r: ReplyView) -> QueryView {
    match q.step {
        QueryStep::OpenView => if r.rc == ERROR_SUCCESS {
            QueryView { step: QueryStep::Execute, ..q }
        } else {
            QueryView {
                step: QueryStep::Done,
                answer: Err(failure_text(MsiCall::OpenView, r.rc)),
            }
        },
        QueryStep::Execute => if r.rc == ERROR_SUCCESS {
            QueryView { step: QueryStep::Fetch, ..q }
        } else {
            QueryView {
                step: QueryStep::CloseView,
                answer: Err(failure_text(MsiCall::ExecuteView, r.rc)),
            }
        },
        QueryStep::Fetch => if r.rc == ERROR_SUCCESS {
            QueryView { step: QueryStep::ReadLength, ..q }
        } else if r.rc == ERROR_NO_MORE_ITEMS {
            QueryView { step: QueryStep::CloseView, answer: Ok(None) }
        } else {
            QueryView {
                step: QueryStep::CloseView,
                answer: Err(failure_text(MsiCall::FetchRecord, r.rc)),
            }
        },
        QueryStep::ReadLength => if r.rc != ERROR_SUCCESS {
            QueryView {
                step: QueryStep::CloseRecord,
                answer: Err(failure_text(MsiCall::ReadLength, r.rc)),
            }
        } else if r.len == 0 {
            QueryView { step: QueryStep::CloseRecord, answer: Ok(Some(Seq::empty())) }
        } else {
            QueryView { step: QueryStep::ReadString((r.len + 1) as u32), ..q }
        },
        QueryStep::ReadString(_) => if r.rc == ERROR_SUCCESS {
            QueryView { step: QueryStep::CloseRecord, answer: Ok(Some(buffer_text(r.buffer))) }
        } else {
            QueryView {
                step: QueryStep::CloseRecord,
                answer: Err(failure_text(MsiCall::ReadString, r.rc)),
            }
        },
        QueryStep::CloseRecord => QueryView { step: QueryStep::CloseView, ..q },
        QueryStep::CloseView => QueryView { step: QueryStep::Done, ..q },
        QueryStep::Done => q,
    }
}

impl PropertyQuery {
    /// A query before its first call.
    pub fn new() -> (q: PropertyQuery)
        ensures
            q@ == query_start(),
    {
        PropertyQuery { step: QueryStep::OpenView, answer: Ok(None) }
    }

    /// The next call.
    pub fn step(&self) -> (step: QueryStep)
        ensures
            step == self@.step,
    {
        self.step
    }

    /// Takes the reply to the next call. A reported length leaves room for
    /// the terminator.
    pub fn on_reply(&mut self, reply: &MsiReply<'_>)
        requires
            old(self)@.step is ReadLength && reply.rc == ERROR_SUCCESS ==> reply.len < u32::MAX,
        ensures
            final(self)@ == query_next(old(self)@, reply@),
    {
        match self.step {
            QueryStep::OpenView => match check(MsiCall::OpenView, reply.rc) {
                Ok(_) => {
                    self.step = QueryStep::Execute;
                },
                Err(e) => {
                    self.step = QueryStep::Done;
                    self.answer = Err(e);
                },
            },
            QueryStep::Execute => match check(MsiCall::ExecuteView, reply.rc) {
                Ok(_) => {
                    self.step = QueryStep::Fetch;
                },
                Err(e) => {
                    self.step = QueryStep::CloseView;
                    self.answer = Err(e);
                },
            },
            QueryStep::Fetch => {
                if reply.rc == ERROR_NO_MORE_ITEMS {
                    self.step = QueryStep::CloseView;
                    self.answer = Ok(None);
                } else {
                    match check(MsiCall::FetchRecord, reply.rc) {
                        Ok(_) => {
                            self.step = QueryStep::ReadLength;
                        },
                        Err(e) => {
                            self.step = QueryStep::CloseView;
                            self.answer = Err(e);
                        },
                    }
                }
            },
            QueryStep::ReadLength => match check(MsiCall::ReadLength, reply.rc) {
                Ok(_) => {
                    if reply.len == 0 {
                        self.step = QueryStep::CloseRecord;
                        self.answer = Ok(Some(String::new()));
                    } else {
                        self.step = QueryStep::ReadString(reply.len + 1);
                    }
                },
                Err(e) => {
                    self.step = QueryStep::CloseRecord;
                    self.answer = Err(e);
                },
            },
            QueryStep::ReadString(_) => {
                self.step = QueryStep::CloseRecord;
                self.answer = match check(MsiCall::ReadString, reply.rc) {
                    Ok(_) => Ok(Some(text_in(reply.buffer))),
                    Err(e) => Err(e),
                };
            },
            QueryStep::CloseRecord => {
                self.step = QueryStep::CloseView;
            },
            QueryStep::CloseView => {
                self.step = QueryStep::Done;
            },
            QueryStep::Done => {},
        }
    }

    /// What the query found.
    pub fn finish(self) -> (answer: Answer)
        ensures
            answer_view(answer) == self@.answer,
    {
        self.answer
    }
}

// ---------------------------------------------------------------------
// The summary information
// ---------------------------------------------------------------------

/// The next call of a query for the summary template.
#[derive(Debug, Clone, Copy, PartialEq, Eq, Structural)]
pub enum SummaryStep {
    /// Open the summary information.
    Open,
    /// Ask for the length of the template.
    ReadLength,
    /// Read the template into a buffer of that many units.
    ReadString(u32),
    /// Close the summary information.
    Close,
    /// Nothing is left to do.
    Done,
}

/// A query for the summary template, call by call.
pub struct SummaryQuery {
    step: SummaryStep,
    answer: Answer,
}

/// The model of `SummaryQuery`.
#[verifier::ext_equal]
pub struct SummaryView {
    pub step: SummaryStep,
    pub answer: AnswerView,
}

impl View for SummaryQuery {
    type V = SummaryView;

    closed spec fn view(&self) -> SummaryView {
        SummaryView { step: self.step, answer: answer_view(self.answer) }
    }
}

/// A query before its first call.
pub open spec fn summary_start() -> SummaryView {
    SummaryView { step: SummaryStep::Open, answer: Ok(None) }
}

/// The template in a buffer; none where it is blank.
pub open spec fn template_in(buffer: Seq<u16>) -> Option<Seq<char>> {
    if trim(buffer_text(buffer)).len() == 0 {
        None
    } else {
        Some(buffer_text(buffer))
    }
}

/// A query after the reply to its next call. A missing, empty or blank
/// template is none, which is no failure. Whatever fails, what is open is
/// closed.
pub open spec fn summary_next(q: SummaryView, r: ReplyView) -> SummaryView {
    match q.step {
        SummaryStep::Open => if r.rc == ERROR_SUCCESS {
            SummaryView { step: SummaryStep::ReadLength, ..q }
        } else {
            SummaryView {
                step: SummaryStep::Done,
                answer: Err(failure_text(MsiCall::OpenSummary, r.rc)),
            }
        },
        SummaryStep::ReadLength => if r.rc == ERROR_UNKNOWN_PROPERTY || r.len == 0 {
            SummaryView { step: SummaryStep::Close, answer: Ok(None) }
        } else if r.rc != ERROR_SUCCESS {
            SummaryView {
                step: SummaryStep::Close,
                answer: Err(failure_text(MsiCall::ReadSummary, r.rc)),
            }
        } else {
            SummaryView { step: SummaryStep::ReadString((r.len + 1) as u32), ..q }
        },
        SummaryStep::ReadString(_) => if r.rc == ERROR_SUCCESS {
            SummaryView { step: SummaryStep::Close, answer: Ok(template_in(r.buffer)) }
        } else {
            SummaryView {
                step: SummaryStep::Close,
                answer: Err(failure_text(MsiCall::ReadSummary, r.rc)),
            }
        },
        SummaryStep::Close => SummaryView { step: SummaryStep::Done, ..q },
        SummaryStep::Done => q,
    }
}

impl SummaryQuery {
    /// A query before its first call.
    pub fn new() -> (q: SummaryQuery)
        ensures
            q@ == summary_start(),
    {
        SummaryQuery { step: SummaryStep::Open, answer: Ok(None) }
    }

    /// The next call.
    pub fn step(&self) -> (step: SummaryStep)
        ensures
            step == self@.step,
    {
        self.step
    }

    /// Takes the reply to the next call. A reported length leaves room for
    /// the terminator.
    pub fn on_reply(&mut self, reply: &MsiReply<'_>)
        requires
            old(self)@.step is ReadLength && reply.rc == ERROR_SUCCESS ==> reply.len < u32::MAX,
        ensures
            final(self)@ == summary_next(old(self)@, reply@),
    {
        match self.step {
            SummaryStep::Open => match check(MsiCall::OpenSummary, reply.rc) {
                Ok(_) => {
                    self.step = SummaryStep::ReadLength;
                },
                Err(e) => {
                    self.step = SummaryStep::Done;
                    self.answer = Err(e);
                },
            },
            SummaryStep::ReadLength => {
                if reply.rc == ERROR_UNKNOWN_PROPERTY || reply.len == 0 {
                    self.step = SummaryStep::Close;
                    self.answer = Ok(None);
                } else {
                    match check(MsiCall::ReadSummary, reply.rc) {
                        Ok(_) => {
                            self.step = SummaryStep::ReadString(reply.len + 1);
                        },
                        Err(e) => {
                            self.step = SummaryStep::Close;
                            self.answer = Err(e);
                        },
                    }
                }
            },
            SummaryStep::ReadString(_) => {
                self.step = SummaryStep::Close;
                self.answer = match check(MsiCall::ReadSummary, reply.rc) {
                    Ok(_) => {
                        let text = from_utf16_lossy(before_null(reply.buffer).as_slice());
                        if trim_text(text.as_slice()).len() == 0 {
                            Ok(None)
                        } else {
                            Ok(Some(string_of(text.as_slice())))
                        }
                    },
                    Err(e) => Err(e),
                };
            },
            SummaryStep::Close => {
                self.step = SummaryStep::Done;
            },
            SummaryStep::Done => {},
        }
    }

    /// What the query found.
    pub fn finish(self) -> (answer: Answer)
        ensures
            answer_view(answer) == self@.answer,
    {
        self.answer
    }
}

// ---------------------------------------------------------------------
// Properties
// ---------------------------------------------------------------------

/// The `Template` property: that of the Property table, or else that of the
/// summary information, where a failure is not fatal.
pub open spec fn template_answer(property: AnswerView, summary: AnswerView) -> AnswerView {
    match property {
        Ok(None) => match summary {
            Ok(v) => Ok(v),
            Err(_) => Ok(None),
        },
        _ => property,
    }
}

/// Chooses the `Template` property. The summary information matters only
/// where the Property table has none.
pub fn msi_template(property: Answer, summary: Answer) -> (r: Answer)
    ensures
        answer_view(r) == template_answer(answer_view(property), answer_view(summary)),
{
    match property {
        Ok(Some(v)) => Ok(Some(v)),
        Ok(None) => match summary {
            Ok(v) => Ok(v),
            Err(_) => Ok(None),
        },
        Err(e) => Err(e),
    }
}

/// The model of a list of answers.
pub open spec fn answers_view(answers: Seq<Answer>) -> Seq<AnswerView> {
    answers.map_values(|a: Answer| answer_view(a))
}

/// The error among the first `n` answers that comes first, if there is one.
pub open spec fn first_error(answers: Seq<AnswerView>, n: int) -> Option<Seq<char>>
    decreases n,
{
    if n <= 0 {
        None
    } else if first_error(answers, n - 1) is Some {
        first_error(answers, n - 1)
    } else {
        match answers[n - 1] {
            Ok(_) => None,
            Err(e) => Some(e),
        }
    }
}

/// The value of the `i`-th property; none where it was not asked for.
pub open spec fn property_value(answers: Seq<AnswerView>, i: int) -> Option<Seq<char>> {
    if i < answers.len() {
        match answers[i] {
            Ok(v) => v,
            Err(_) => None,
        }
    } else {
        None
    }
}

/// The value of the `i`-th property, or an empty text.
pub open spec fn property_text(answers: Seq<AnswerView>, i: int) -> Seq<char> {
    match property_value(answers, i) {
        Some(v) => v,
        None => Seq::empty(),
    }
}

/// The information of a package with the given properties and template. The
/// product version serves as the file version too.
pub open spec fn package_info(answers: Seq<AnswerView>, template: Option<Seq<char>>) -> InfoView {
    InfoView {
        arch: match template {
            Some(t) => template_token(t),
            None => Seq::empty(),
        },
        product_name: property_text(answers, 0),
        file_version: property_text(answers, 1),
        product_version: property_text(answers, 1),
        company_name: property_text(answers, 2),
        internal_name: property_text(answers, 3),
        comments: property_text(answers, 4),
        file_description: property_text(answers, 5),
        fixed: match property_value(answers, 1) {
            Some(version) => Some(
                FixedView {
                    file_version: version_components(version),
                    product_version: version_components(version),
                    file_type: "MSI"@,
                    file_subtype: Seq::empty(),
                    file_os: Seq::empty(),
                    file_flags: Seq::empty(),
                },
            ),
            None => None,
        },
        ..empty_info()
    }
}

/// How many of the answers belong to properties.
pub open spec fn asked(answers: Seq<AnswerView>) -> int {
    if answers.len() < 6 {
        answers.len() as int
    } else {
        6
    }
}

/// What the answers of a package amount to: the first error, or else the
/// information.
pub open spec fn package_result(answers: Seq<AnswerView>, template: AnswerView) -> Result<
    InfoView,
    Seq<char>,
> {
    match first_error(answers, asked(answers)) {
        Some(e) => Err(e),
        None => match template {
            Err(e) => Err(e),
            Ok(t) => Ok(package_info(answers, t)),
        },
    }
}

fn value_of(answers: &Vec<Answer>, i: usize) -> (v: Option<String>)
    ensures
        string_view(v) == property_value(answers_view(answers@), i as int),
{
    if i >= answers.len() {
        return None;
    }
    assert(answers_view(answers@)[i as int] == answer_view(answers@[i as int]));
    match &answers[i] {
        Ok(Some(v)) => Some(v.clone()),
        _ => None,
    }
}

fn text_of(answers: &Vec<Answer>, i: usize) -> (v: String)
    ensures
        v@ == property_text(answers_view(answers@), i as int),
{
    match value_of(answers, i) {
        Some(v) => v,
        None => String::new(),
    }
}

/// The information of a package, from the answers for the `PROPERTY_KEYS`, in
/// order, and from its `Template` property. Answers behind an error may be
/// missing.
pub fn read_msi_properties(answers: Vec<Answer>, template: Answer) -> (r: Result<
    VersionInfo,
    String,
>)
    ensures
        info_result(r) == package_result(answers_view(answers@), answer_view(template)),
{
    let ghost views = answers_view(answers@);
    let n: usize = if answers.len() < 6 {
        answers.len()
    } else {
        6
    };
    for i in 0..n
        invariant
            views == answers_view(answers@),
            n == asked(views),
            n <= answers.len(),
            first_error(views, i as int) is None,
    {
        assert(views[i as int] == answer_view(answers@[i as int]));
        if let Err(e) = &answers[i] {
            let e = e.clone();
            proof {
                lemma_first_error_stays(views, i + 1, n as int);
            }
            return Err(e);
        }
    }
    let mut info = VersionInfo::default();
    info.product_name = text_of(&answers, 0);
    info.company_name = text_of(&answers, 2);
    info.internal_name = text_of(&answers, 3);
    info.comments = text_of(&answers, 4);
    info.file_description = text_of(&answers, 5);
    if let Some(version) = value_of(&answers, 1) {
        info.fixed = Some(
            FixedFileInfo {
                file_version: parse_version_parts(version.as_str()),
                product_version: parse_version_parts(version.as_str()),
                file_type: "MSI".to_owned(),
                file_subtype: String::new(),
                file_os: String::new(),
                file_flags: String::new(),
            },
        );
        info.file_version = version.clone();
        info.product_version = version;
    }
    match template {
        Ok(Some(t)) => {
            info.arch = msi_arch_token(t.as_str());
        },
        Ok(None) => {},
        Err(e) => {
            return Err(e);
        },
    }
    proof {
        let t = match answer_view(template) {
            Ok(t) => t,
            Err(_) => None,
        };
        assert(info@ == package_info(views, t));
    }
    Ok(info)
}

proof fn lemma_first_error_stays(answers: Seq<AnswerView>, i: int, n: int)
    requires
        i <= n,
        first_error(answers, i) is Some,
    ensures
        first_error(answers, n) == first_error(answers, i),
    decreases n - i,
{
    if i < n {
        lemma_first_error_stays(answers, i, n - 1);
        if n <= 0 {
            assert(first_error(answers, i) is None);
        }
    }
}

// ---------------------------------------------------------------------
// One package
// ---------------------------------------------------------------------

/// Where the reading of a package stands.
#[derive(Debug, Clone, Copy, PartialEq, Eq, Structural)]
pub enum Stage {
    /// The database is to be opened.
    OpenDatabase,
    /// A property, by its place among the `PROPERTY_KEYS`, is to be read.
    Property(usize),
    /// The `Template` property is to be read.
    Template,
    /// The template of the summary information is to be read.
    Summary,
    /// The database is to be closed.
    CloseDatabase,
    /// Nothing is left to do.
    Done,
}

/// What happens to a package that is read.
pub enum PackageEvent {
    /// The database was opened, or not, by the return code.
    Opened(u32),
    /// A question was answered.
    Answered(Answer),
    /// The database was closed.
    Closed,
}

/// The model of `PackageEvent`.
pub enum EventView {
    Opened(u32),
    Answered(AnswerView),
    Closed,
}

impl View for PackageEvent {
    type V = EventView;

    open spec fn view(&self) -> EventView {
        match *self {
            PackageEvent::Opened(rc) => EventView::Opened(rc),
            PackageEvent::Answered(a) => EventView::Answered(answer_view(a)),
            PackageEvent::Closed => EventView::Closed,
        }
    }
}

/// The reading of a package, question by question: all properties and then
/// the template, or the template alone.
pub struct PackageReader {
    stage: Stage,
    whole: bool,
    properties: Vec<Answer>,
    template: Answer,
}

/// The model of `PackageReader`.
#[verifier::ext_equal]
pub struct PackageView {
    pub stage: Stage,
    pub whole: bool,
    pub properties: Seq<AnswerView>,
    pub template: AnswerView,
}

impl View for PackageReader {
    type V = PackageView;

    closed spec fn view(&self) -> PackageView {
        PackageView {
            stage: self.stage,
            whole: self.whole,
            properties: answers_view(self.properties@),
            template: answer_view(self.template),
        }
    }
}

/// A package before it is opened.
pub open spec fn package_start(whole: bool) -> PackageView {
    PackageView { stage: Stage::OpenDatabase, whole, properties: seq![], template: Ok(None) }
}

/// The reading after an event. The first error ends it. The summary
/// information is read only where the Property table has no template. A
/// database that was opened is closed at the end. Where an event does not fit
/// the stage, nothing happens.
pub open spec fn package_next(p: PackageView, event: EventView) -> PackageView {
    match (p.stage, event) {
        (Stage::OpenDatabase, EventView::Opened(rc)) => if rc != ERROR_SUCCESS {
            PackageView {
                stage: Stage::Done,
                template: Err(failure_text(MsiCall::OpenDatabase, rc)),
                ..p
            }
        } else if p.whole {
            PackageView { stage: Stage::Property(0), ..p }
        } else {
            PackageView { stage: Stage::Template, ..p }
        },
        (Stage::Property(i), EventView::Answered(a)) => PackageView {
            stage: if a is Err {
                Stage::CloseDatabase
            } else if i < 5 {
                Stage::Property((i + 1) as usize)
            } else {
                Stage::Template
            },
            properties: p.properties.push(a),
            ..p
        },
        (Stage::Template, EventView::Answered(a)) => PackageView {
            stage: if a == Ok::<Option<Seq<char>>, Seq<char>>(None) {
                Stage::Summary
            } else {
                Stage::CloseDatabase
            },
            template: a,
            ..p
        },
        (Stage::Summary, EventView::Answered(a)) => PackageView {
            stage: Stage::CloseDatabase,
            template: template_answer(p.template, a),
            ..p
        },
        (Stage::CloseDatabase, EventView::Closed) => PackageView { stage: Stage::Done, ..p },
        _ => p,
    }
}

impl PackageReader {
    /// A package whose information is to be read.
    pub fn new() -> (p: PackageReader)
        ensures
            p@ == package_start(true),
    {
        let p = PackageReader {
            stage: Stage::OpenDatabase,
            whole: true,
            properties: Vec::new(),
            template: Ok(None),
        };
        assert(p@.properties == Seq::<AnswerView>::empty());
        p
    }

    /// A package whose template is to be read.
    pub fn template_only() -> (p: PackageReader)
        ensures
            p@ == package_start(false),
    {
        let p = PackageReader {
            stage: Stage::OpenDatabase,
            whole: false,
            properties: Vec::new(),
            template: Ok(None),
        };
        assert(p@.properties == Seq::<AnswerView>::empty());
        p
    }

    /// Where the reading stands.
    pub fn stage(&self) -> (stage: Stage)
        ensures
            stage == self@.stage,
    {
        self.stage
    }

    /// Takes an event.
    pub fn on_event(&mut self, event: PackageEvent)
        ensures
            final(self)@ == package_next(old(self)@, event@),
    {
        match (self.stage, event) {
            (Stage::OpenDatabase, PackageEvent::Opened(rc)) => match check(
                MsiCall::OpenDatabase,
                rc,
            ) {
                Ok(_) => {
                    self.stage = if self.whole {
                        Stage::Property(0)
                    } else {
                        Stage::Template
                    };
                },
                Err(e) => {
                    self.stage = Stage::Done;
                    self.template = Err(e);
                },
            },
            (Stage::Property(i), PackageEvent::Answered(a)) => {
                self.stage = if a.is_err() {
                    Stage::CloseDatabase
                } else if i < 5 {
                    Stage::Property(i + 1)
                } else {
                    Stage::Template
                };
                let ghost before = self.properties@;
                let ghost view = answer_view(a);
                self.properties.push(a);
                assert(answers_view(self.properties@) == answers_view(before).push(view));
            },
            (Stage::Template, PackageEvent::Answered(a)) => {
                self.stage = match &a {
                    Ok(None) => Stage::Summary,
                    _ => Stage::CloseDatabase,
                };
                self.template = a;
            },
            (Stage::Summary, PackageEvent::Answered(a)) => {
                self.stage = Stage::CloseDatabase;
                let property = match &self.template {
                    Ok(Some(v)) => Ok(Some(v.clone())),
                    Ok(None) => Ok(None),
                    Err(e) => Err(e.clone()),
                };
                self.template = msi_template(property, a);
            },
            (Stage::CloseDatabase, PackageEvent::Closed) => {
                self.stage = Stage::Done;
            },
            _ => {},
        }
    }

    /// The information that was read.
    pub fn finish(self) -> (r: Result<VersionInfo, String>)
        ensures
            info_result(r) == package_result(self@.properties, self@.template),
    {
        read_msi_properties(self.properties, self.template)
    }

    /// The template that was read; none where the package is unreadable.
    pub fn finish_template(self) -> (template: Option<String>)
        ensures
            string_view(template) == (match self@.template {
                Ok(v) => v,
                Err(_) => None,
            }),
    {
        match self.template {
            Ok(v) => v,
            Err(_) => None,
        }
    }
}

/// The property that a stage asks for.
pub open spec fn asked_property(stage: Stage) -> Option<Seq<char>> {
    match stage {
        Stage::Property(i) => if i < 6 {
            Some(PROPERTY_KEYS@[i as int]@)
        } else {
            None
        },
        Stage::Template => Some("Template"@),
        _ => None,
    }
}

/// The property that a stage asks for.
pub fn stage_property(stage: Stage) -> (key: Option<&'static str>)
    ensures
        (match key {
            Some(k) => Some(k@),
            None => None,
        }) == asked_property(stage),
{
    match stage {
        Stage::Property(i) => if i < 6 {
            Some(PROPERTY_KEYS[i])
        } else {
            None
        },
        Stage::Template => Some("Template"),
        _ => None,
    }
}

// ---------------------------------------------------------------------
// Laws
// ---------------------------------------------------------------------

/// Whether a view is open before the next call of a query.
pub open spec fn view_open(step: QueryStep) -> bool {
    !(step is OpenView || step is Done)
}

/// Whether a record is open before the next call of a query.
pub open spec fn record_open(step: QueryStep) -> bool {
    step is ReadLength || step is ReadString || step is CloseRecord
}

/// A query knows what is open: a view and a record are open from the call
/// that succeeded in opening them up to the call that closes them, and
/// nothing is open where the query ends.
pub proof fn law_queries_close_what_they_open(q: QueryView, r: ReplyView)
    ensures
        view_open(query_next(q, r).step) == (if q.step is OpenView {
            r.rc == ERROR_SUCCESS
        } else {
            view_open(q.step) && !(q.step is CloseView)
        }),
        record_open(query_next(q, r).step) == (if q.step is Fetch {
            r.rc == ERROR_SUCCESS
        } else {
            record_open(q.step) && !(q.step is CloseRecord)
        }),
        q.step is Done ==> !view_open(q.step) && !record_open(q.step),
{
}

/// How many calls a query makes at most from a step on.
pub open spec fn calls_left(step: QueryStep) -> nat {
    match step {
        QueryStep::OpenView => 7,
        QueryStep::Execute => 6,
        QueryStep::Fetch => 5,
        QueryStep::ReadLength => 4,
        QueryStep::ReadString(_) => 3,
        QueryStep::CloseRecord => 2,
        QueryStep::CloseView => 1,
        QueryStep::Done => 0,
    }
}

/// A query ends, whatever the replies are.
pub proof fn law_queries_end(q: QueryView, r: ReplyView)
    requires
        !(q.step is Done),
    ensures
        calls_left(query_next(q, r).step) < calls_left(q.step),
{
}

/// The replies to the calls of a query, each of which is made at most once.
pub struct QueryReplies {
    pub open: ReplyView,
    pub execute: ReplyView,
    pub fetch: ReplyView,
    pub length: ReplyView,
    pub string: ReplyView,
    pub close: ReplyView,
}

/// A query with the given replies, run to its end.
pub open spec fn query_end(q: QueryView, replies: QueryReplies) -> QueryView
    decreases calls_left(q.step),
{
    match q.step {
        QueryStep::OpenView => query_end(query_next(q, replies.open), replies),
        QueryStep::Execute => query_end(query_next(q, replies.execute), replies),
        QueryStep::Fetch => query_end(query_next(q, replies.fetch), replies),
        QueryStep::ReadLength => query_end(query_next(q, replies.length), replies),
        QueryStep::ReadString(_) => query_end(query_next(q, replies.string), replies),
        QueryStep::CloseRecord => query_end(query_next(q, replies.close), replies),
        QueryStep::CloseView => query_end(query_next(q, replies.close), replies),
        QueryStep::Done => q,
    }
}

/// What a query finds with the given replies.
pub open spec fn query_answer(replies: QueryReplies) -> AnswerView {
    if replies.open.rc != ERROR_SUCCESS {
        Err(failure_text(MsiCall::OpenView, replies.open.rc))
    } else if replies.execute.rc != ERROR_SUCCESS {
        Err(failure_text(MsiCall::ExecuteView, replies.execute.rc))
    } else if replies.fetch.rc == ERROR_NO_MORE_ITEMS {
        Ok(None)
    } else if replies.fetch.rc != ERROR_SUCCESS {
        Err(failure_text(MsiCall::FetchRecord, replies.fetch.rc))
    } else if replies.length.rc != ERROR_SUCCESS {
        Err(failure_text(MsiCall::ReadLength, replies.length.rc))
    } else if replies.length.len == 0 {
        Ok(Some(Seq::empty()))
    } else if replies.string.rc != ERROR_SUCCESS {
        Err(failure_text(MsiCall::ReadString, replies.string.rc))
    } else {
        Ok(Some(buffer_text(replies.string.buffer)))
    }
}

/// A query run to its end finds the value of the property, or says which call
/// failed.
pub proof fn law_queries_answer(replies: QueryReplies)
    ensures
        query_end(query_start(), replies).step is Done,
        query_end(query_start(), replies).answer == query_answer(replies),
{
    reveal_with_fuel(query_end, 8);
}

/// Whether the summary information is open before the next call of a query.
pub open spec fn summary_open(step: SummaryStep) -> bool {
    !(step is Open || step is Done)
}

/// How many calls a query for the summary template makes at most from a step
/// on.
pub open spec fn summary_calls_left(step: SummaryStep) -> nat {
    match step {
        SummaryStep::Open => 4,
        SummaryStep::ReadLength => 3,
        SummaryStep::ReadString(_) => 2,
        SummaryStep::Close => 1,
        SummaryStep::Done => 0,
    }
}

/// The summary information is open from the call that succeeded in opening it
/// up to the call that closes it, and the query ends, whatever the replies
/// are.
pub proof fn law_summary_is_closed(q: SummaryView, r: ReplyView)
    ensures
        summary_open(summary_next(q, r).step) == (if q.step is Open {
            r.rc == ERROR_SUCCESS
        } else {
            summary_open(q.step) && !(q.step is Close)
        }),
        q.step is Done ==> !summary_open(q.step),
        !(q.step is Done) ==> summary_calls_left(summary_next(q, r).step) < summary_calls_left(
            q.step,
        ),
{
}

/// The replies to the calls of a query for the summary template.
pub struct SummaryReplies {
    pub open: ReplyView,
    pub length: ReplyView,
    pub string: ReplyView,
    pub close: ReplyView,
}

/// A query for the summary template with the given replies, run to its end.
pub open spec fn summary_end(q: SummaryView, replies: SummaryReplies) -> SummaryView
    decreases summary_calls_left(q.step),
{
    match q.step {
        SummaryStep::Open => summary_end(summary_next(q, replies.open), replies),
        SummaryStep::ReadLength => summary_end(summary_next(q, replies.length), replies),
        SummaryStep::ReadString(_) => summary_end(summary_next(q, replies.string), replies),
        SummaryStep::Close => summary_end(summary_next(q, replies.close), replies),
        SummaryStep::Done => q,
    }
}

/// What a query for the summary template finds with the given replies.
pub open spec fn summary_answer(replies: SummaryReplies) -> AnswerView {
    if replies.open.rc != ERROR_SUCCESS {
        Err(failure_text(MsiCall::OpenSummary, replies.open.rc))
    } else if replies.length.rc == ERROR_UNKNOWN_PROPERTY || replies.length.len == 0 {
        Ok(None)
    } else if replies.length.rc != ERROR_SUCCESS {
        Err(failure_text(MsiCall::ReadSummary, replies.length.rc))
    } else if replies.string.rc != ERROR_SUCCESS {
        Err(failure_text(MsiCall::ReadSummary, replies.string.rc))
    } else {
        Ok(template_in(replies.string.buffer))
    }
}

/// A query for the summary template run to its end finds the template, or
/// says which call failed.
pub proof fn law_summary_queries_answer(replies: SummaryReplies)
    ensures
        summary_end(summary_start(), replies).step is Done,
        summary_end(summary_start(), replies).answer == summary_answer(replies),
{
    reveal_with_fuel(summary_end, 5);
}

/// Whether the database of a package is open.
pub open spec fn database_open(stage: Stage) -> bool {
    !(stage is OpenDatabase || stage is Done)
}

/// The database is open from the call that succeeded in opening it up to the
/// call that closes it, and is not open where the reading ends.
pub proof fn law_database_is_closed(p: PackageView, event: EventView)
    ensures
        database_open(package_next(p, event).stage) == (match (p.stage, event) {
            (Stage::OpenDatabase, EventView::Opened(rc)) => rc == ERROR_SUCCESS,
            (Stage::CloseDatabase, EventView::Closed) => false,
            _ => database_open(p.stage),
        }),
        p.stage is Done ==> !database_open(p.stage),
{
}

/// What a package answers: the return code of opening it, the properties in
/// the order of the `PROPERTY_KEYS`, the `Template` property, and the template
/// of the summary information.
pub struct PackageAnswers {
    pub rc: u32,
    pub properties: Seq<AnswerView>,
    pub template: AnswerView,
    pub summary: AnswerView,
}

/// How many events are left at most.
pub open spec fn events_left(stage: Stage) -> nat {
    match stage {
        Stage::OpenDatabase => 10,
        Stage::Property(i) => if i < 6 {
            (9 - i) as nat
        } else {
            4
        },
        Stage::Template => 3,
        Stage::Summary => 2,
        Stage::CloseDatabase => 1,
        Stage::Done => 0,
    }
}

/// The reading of a package with the given answers, run to its end.
pub open spec fn package_end(p: PackageView, answers: PackageAnswers) -> PackageView
    decreases events_left(p.stage),
{
    match p.stage {
        Stage::OpenDatabase => package_end(
            package_next(p, EventView::Opened(answers.rc)),
            answers,
        ),
        Stage::Property(i) => package_end(
            package_next(p, EventView::Answered(answers.properties[i as int])),
            answers,
        ),
        Stage::Template => package_end(
            package_next(p, EventView::Answered(answers.template)),
            answers,
        ),
        Stage::Summary => package_end(
            package_next(p, EventView::Answered(answers.summary)),
            answers,
        ),
        Stage::CloseDatabase => package_end(package_next(p, EventView::Closed), answers),
        Stage::Done => p,
    }
}

/// What was read at the end of a package.
pub open spec fn end_result(p: PackageView) -> Result<InfoView, Seq<char>> {
    package_result(p.properties, p.template)
}

/// A package whose database cannot be opened is answered with that failure,
/// and a package that opens with what its answers amount to: the first error
/// among the properties and the template, or the information.
pub proof fn law_packages_are_read(answers: PackageAnswers)
    requires
        answers.properties.len() == 6,
    ensures
        package_end(package_start(true), answers).stage is Done,
        end_result(package_end(package_start(true), answers)) == (if answers.rc != ERROR_SUCCESS {
            Err(failure_text(MsiCall::OpenDatabase, answers.rc))
        } else {
            package_result(
                answers.properties,
                template_answer(answers.template, answers.summary),
            )
        }),
{
    reveal_with_fuel(package_end, 3);
    if answers.rc == ERROR_SUCCESS {
        let p = package_next(package_start(true), EventView::Opened(answers.rc));
        assert(p.properties == answers.properties.take(0));
        lemma_properties_are_read(p, answers, 0);
    }
}

/// Where only the template is asked for, it is that of the Property table, or
/// else that of the summary information.
pub proof fn law_templates_are_read(answers: PackageAnswers)
    ensures
        package_end(package_start(false), answers).stage is Done,
        package_end(package_start(false), answers).template == (if answers.rc != ERROR_SUCCESS {
            Err(failure_text(MsiCall::OpenDatabase, answers.rc))
        } else {
            template_answer(answers.template, answers.summary)
        }),
{
    reveal_with_fuel(package_end, 5);
}

proof fn lemma_properties_are_read(p: PackageView, answers: PackageAnswers, i: usize)
    requires
        answers.properties.len() == 6,
        i < 6,
        p.stage == Stage::Property(i),
        p.whole,
        p.template == Ok::<Option<Seq<char>>, Seq<char>>(None),
        p.properties == answers.properties.take(i as int),
        first_error(answers.properties, i as int) is None,
    ensures
        package_end(p, answers).stage is Done,
        end_result(package_end(p, answers)) == package_result(
            answers.properties,
            template_answer(answers.template, answers.summary),
        ),
    decreases 6 - i,
{
    let a = answers.properties[i as int];
    let next = package_next(p, EventView::Answered(a));
    assert(next.properties == answers.properties.take(i + 1));
    if a is Err {
        reveal_with_fuel(package_end, 3);
        lemma_first_error_stays(answers.properties, i + 1, 6);
        lemma_first_error_of_prefix(answers.properties, i + 1, i + 1);
    } else if i < 5 {
        lemma_properties_are_read(next, answers, (i + 1) as usize);
    } else {
        assert(next.properties == answers.properties);
        reveal_with_fuel(package_end, 5);
    }
}

proof fn lemma_first_error_of_prefix(answers: Seq<AnswerView>, k: int, n: int)
    requires
        n <= k <= answers.len(),
    ensures
        first_error(answers.take(k), n) == first_error(answers, n),
    decreases n,
{
    if n > 0 {
        lemma_first_error_of_prefix(answers, k, n - 1);
    }
}

/// The error texts of the calls, by what they were to do.
pub proof fn law_failures_are_told(call: MsiCall, rc: u32)
    ensures
        failure_text(call, rc) == "failed to "@ + (match call {
            MsiCall::OpenDatabase => "open MSI database"@,
            MsiCall::OpenView => "open MSI view"@,
            MsiCall::ExecuteView => "execute MSI view"@,
            MsiCall::FetchRecord => "fetch MSI record"@,
            MsiCall::ReadLength => "read MSI string length"@,
            MsiCall::ReadString => "read MSI string"@,
            MsiCall::OpenSummary => "open MSI summary information"@,
            MsiCall::ReadSummary => "read MSI summary property"@,
        }) + " (error "@ + decimal(rc as nat) + ")"@,
{
}

/// A query asks for the value of one property.
pub proof fn law_queries_name_their_property(property: Seq<char>)
    ensures
        query_text(property) == "SELECT `Value` FROM `Property` WHERE `Property` = '"@ + property
            + "'"@,
{
}

/// Six properties are asked for, in this order, and then the template.
pub proof fn law_these_properties_are_asked_for(i: usize)
    ensures
        i < 6 ==> asked_property(Stage::Property(i)) == Some(
            seq![
                "ProductName"@,
                "ProductVersion"@,
                "Manufacturer"@,
                "ProductCode"@,
                "ARPCOMMENTS"@,
                "Subject"@,
            ][i as int],
        ),
        asked_property(Stage::Template) == Some("Template"@),
{
    assert(PROPERTY_KEYS@[0]@ == "ProductName"@);
    assert(PROPERTY_KEYS@[1]@ == "ProductVersion"@);
    assert(PROPERTY_KEYS@[2]@ == "Manufacturer"@);
    assert(PROPERTY_KEYS@[3]@ == "ProductCode"@);
    assert(PROPERTY_KEYS@[4]@ == "ARPCOMMENTS"@);
    assert(PROPERTY_KEYS@[5]@ == "Subject"@);
}

/// A value that is there is read whole: where every call succeeds, the text
/// that the buffer holds up to its terminator is the answer, and the buffer
/// that is asked for has room for the reported length and the terminator.
pub proof fn law_values_are_read_whole(replies: QueryReplies, text: Seq<char>, after: Seq<u16>)
    requires
        replies.open.rc == 0,
        replies.execute.rc == 0,
        replies.fetch.rc == 0,
        replies.length.rc == 0,
        0 < replies.length.len < u32::MAX,
        replies.string.rc == 0,
        replies.string.buffer == encode(text).push(0) + after,
        forall|i: int| 0 <= i < text.len() ==> text[i] != '\0',
    ensures
        query_end(query_start(), replies).answer == Ok::<Option<Seq<char>>, Seq<char>>(Some(text)),
        forall|q: QueryView|
            q.step == QueryStep::ReadLength ==> (#[trigger] query_next(q, replies.length)).step
                == QueryStep::ReadString((replies.length.len + 1) as u32),
{
    law_queries_answer(replies);
    law_wide_round_trip(text, after);
}

/// A query that cannot give a value says so: the first call that fails gives
/// the error, an empty field is an empty text, and a fetch without a record
/// finds nothing.
pub proof fn law_queries_tell_what_is_missing(replies: QueryReplies)
    ensures
        ({
            let answer = query_end(query_start(), replies).answer;
            let opened = replies.open.rc == 0;
            let executed = opened && replies.execute.rc == 0;
            let fetched = executed && replies.fetch.rc == 0;
            let sized = fetched && replies.length.rc == 0;
            &&& !opened ==> answer == Err::<Option<Seq<char>>, Seq<char>>(
                failure_text(MsiCall::OpenView, replies.open.rc),
            )
            &&& opened && !executed ==> answer == Err::<Option<Seq<char>>, Seq<char>>(
                failure_text(MsiCall::ExecuteView, replies.execute.rc),
            )
            &&& executed && replies.fetch.rc == 259 ==> answer == Ok::<
                Option<Seq<char>>,
                Seq<char>,
            >(None)
            &&& executed && replies.fetch.rc != 0 && replies.fetch.rc != 259 ==> answer == Err::<
                Option<Seq<char>>,
                Seq<char>,
            >(failure_text(MsiCall::FetchRecord, replies.fetch.rc))
            &&& fetched && !sized ==> answer == Err::<Option<Seq<char>>, Seq<char>>(
                failure_text(MsiCall::ReadLength, replies.length.rc),
            )
            &&& sized && replies.length.len == 0 ==> answer == Ok::<Option<Seq<char>>, Seq<char>>(
                Some(Seq::empty()),
            )
            &&& sized && replies.length.len != 0 && replies.string.rc != 0 ==> answer == Err::<
                Option<Seq<char>>,
                Seq<char>,
            >(failure_text(MsiCall::ReadString, replies.string.rc))
        }),
{
    law_queries_answer(replies);
}

/// A summary template that is there is read whole, white space around it
/// included; one of white space alone is none.
pub proof fn law_summary_templates_are_read_whole(
    replies: SummaryReplies,
    text: Seq<char>,
    after: Seq<u16>,
)
    requires
        replies.open.rc == 0,
        replies.length.rc == 0,
        0 < replies.length.len < u32::MAX,
        replies.string.rc == 0,
        replies.string.buffer == encode(text).push(0) + after,
        forall|i: int| 0 <= i < text.len() ==> text[i] != '\0',
    ensures
        summary_end(summary_start(), replies).answer == Ok::<Option<Seq<char>>, Seq<char>>(
            if forall|i: int| 0 <= i < text.len() ==> is_white(#[trigger] text[i]) {
                None
            } else {
                Some(text)
            },
        ),
        forall|q: SummaryView|
            q.step == SummaryStep::ReadLength ==> (#[trigger] summary_next(q, replies.length)).step
                == SummaryStep::ReadString((replies.length.len + 1) as u32),
{
    law_summary_queries_answer(replies);
    law_wide_round_trip(text, after);
    law_blank_texts_are_trimmed_away(text);
}

/// A summary template that cannot be read says so, except that a missing or
/// empty one is none.
pub proof fn law_summaries_tell_what_is_missing(replies: SummaryReplies)
    ensures
        ({
            let answer = summary_end(summary_start(), replies).answer;
            let opened = replies.open.rc == 0;
            let missing = replies.length.rc == 160 || replies.length.len == 0;
            &&& !opened ==> answer == Err::<Option<Seq<char>>, Seq<char>>(
                failure_text(MsiCall::OpenSummary, replies.open.rc),
            )
            &&& opened && missing ==> answer == Ok::<Option<Seq<char>>, Seq<char>>(None)
            &&& opened && !missing && replies.length.rc != 0 ==> answer == Err::<
                Option<Seq<char>>,
                Seq<char>,
            >(failure_text(MsiCall::ReadSummary, replies.length.rc))
            &&& opened && !missing && replies.length.rc == 0 && replies.string.rc != 0 ==> answer
                == Err::<Option<Seq<char>>, Seq<char>>(
                failure_text(MsiCall::ReadSummary, replies.string.rc),
            )
        }),
{
    law_summary_queries_answer(replies);
}

/// The template is that of the Property table where it has one or fails to
/// tell, and only otherwise that of the summary information, whose failure is
/// none.
pub proof fn law_the_table_comes_first(property: AnswerView, summary: AnswerView)
    ensures
        property is Err || property->Ok_0 is Some ==> template_answer(property, summary)
            == property,
        property is Ok && property->Ok_0 is None && summary is Ok ==> template_answer(
            property,
            summary,
        ) == summary,
        property is Ok && property->Ok_0 is None && summary is Err ==> template_answer(
            property,
            summary,
        ) == Ok::<Option<Seq<char>>, Seq<char>>(None),
{
}

/// The properties of a package fill the information, each at its place and as
/// it is; a missing one leaves its place empty. The product version is the
/// file version too, its numbers make the fixed part, and the template names
/// the architecture.
pub proof fn law_properties_fill_the_information(
    values: Seq<Option<Seq<char>>>,
    template: Option<Seq<char>>,
)
    requires
        values.len() == 6,
    ensures
        ({
            let text = |i: int|
                if values[i] is Some {
                    values[i]->0
                } else {
                    Seq::empty()
                };
            let r = package_result(
                values.map_values(
                    |v: Option<Seq<char>>| Ok::<Option<Seq<char>>, Seq<char>>(v),
                ),
                Ok(template),
            );
            &&& r is Ok
            &&& r->Ok_0.product_name == text(0)
            &&& r->Ok_0.file_version == text(1)
            &&& r->Ok_0.product_version == text(1)
            &&& r->Ok_0.company_name == text(2)
            &&& r->Ok_0.internal_name == text(3)
            &&& r->Ok_0.comments == text(4)
            &&& r->Ok_0.file_description == text(5)
            &&& r->Ok_0.original_filename.len() == 0
            &&& r->Ok_0.legal_copyright.len() == 0
            &&& r->Ok_0.legal_trademarks.len() == 0
            &&& r->Ok_0.private_build.len() == 0
            &&& r->Ok_0.special_build.len() == 0
            &&& template is Some ==> r->Ok_0.arch == template_token(template->0)
            &&& template is None ==> r->Ok_0.arch.len() == 0
            &&& r->Ok_0.fixed is Some <==> values[1] is Some
            &&& r->Ok_0.fixed matches Some(f) ==> {
                &&& f.file_version == version_components(values[1]->0)
                &&& f.product_version == version_components(values[1]->0)
                &&& f.file_type == "MSI"@
                &&& f.file_subtype.len() == 0
                &&& f.file_os.len() == 0
                &&& f.file_flags.len() == 0
            }
        }),
{
    let answers = values.map_values(|v: Option<Seq<char>>| Ok::<Option<Seq<char>>, Seq<char>>(v));
    lemma_no_first_error(answers, 6);
}

proof fn lemma_no_first_error(answers: Seq<AnswerView>, n: int)
    requires
        n <= answers.len(),
        forall|i: int| 0 <= i < n ==> (#[trigger] answers[i]) is Ok,
    ensures
        first_error(answers, n) is None,
    decreases n,
{
    if n > 0 {
        lemma_no_first_error(answers, n - 1);
    }
}

/// The first property that fails fails the package with its error, whatever
/// follows, and a template that fails does so where no property did.
pub proof fn law_the_first_failure_fails_the_package(
    answers: Seq<AnswerView>,
    k: int,
    error: Seq<char>,
    template: AnswerView,
)
    requires
        0 <= k < 6,
        forall|i: int| 0 <= i < k && i < answers.len() ==> (#[trigger] answers[i]) is Ok,
    ensures
        k < answers.len() && answers[k] == Err::<Option<Seq<char>>, Seq<char>>(error)
            ==> package_result(answers, template) == Err::<InfoView, Seq<char>>(error),
        k == 5 && answers.len() == 6 && answers[5] is Ok && template == Err::<
            Option<Seq<char>>,
            Seq<char>,
        >(error) ==> package_result(answers, template) == Err::<InfoView, Seq<char>>(error),
{
    if k < answers.len() && answers[k] is Err {
        lemma_no_first_error(answers, k);
        lemma_first_error_stays(answers, k + 1, asked(answers));
    }
    if answers.len() == 6 && k == 5 && answers[5] is Ok {
        lemma_no_first_error(answers, 6);
    }
}

/// What a buffer holds is read unit by unit, whatever units it has: those in
/// front of the first null, or all of them, make the text.
pub proof fn law_buffers_are_read_up_to_a_null(units: Seq<u16>, after: Seq<u16>)
    requires
        forall|i: int| 0 <= i < units.len() ==> units[i] != 0,
    ensures
        buffer_text(units) == decode(units),
        buffer_text(units + seq![0u16] + after) == decode(units),
{
    law_null_ends_a_text(units, after);
}

} // verus!
