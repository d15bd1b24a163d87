//! The submission form: the kind of submission is chosen from a list, then
//! one line is asked for each entry of the record, in a fixed order.

use vstd::prelude::*;
use vstd::pervasive::unreached;
use vstd::string::StringExecFns;
use crate::ansi::{
    alarming, badged, bold, bold_text, celebrating, closing, dimmed, write_bold, write_plain,
    DARK_BLUE, DARK_MAGENTA, WHITE,
};
use crate::database::{FormData, Submission};
use crate::prompt::{Prompt, PromptState, PromptStep, required_notice};
use crate::select::{
    line_count, lines_before, scrolled, total_lines, viewport, SelectState, SelectStep, Selection,
};
use crate::terminal::{AsciiCode, TerminalCode};
use crate::text::{crlf, crlf_str, lemma_split_len_bound, strings_of};

verus! {

/// An entry of the record that the form asks for.
#[derive(Clone, Copy, Debug, PartialEq, Eq, Structural)]
pub enum Field {
    Name,
    SlackHandle,
    Email,
    AddressLine1,
    AddressLine2,
    City,
    State,
    Zip,
    Country,
    PackageLink,
    Description,
    Hours,
}

/// The entry that is asked for after `field`, if any.
pub open spec fn next_field(field: Field) -> Option<Field> {
    match field {
        Field::Name => Some(Field::SlackHandle),
        Field::SlackHandle => Some(Field::Email),
        Field::Email => Some(Field::AddressLine1),
        Field::AddressLine1 => Some(Field::AddressLine2),
        Field::AddressLine2 => Some(Field::City),
        Field::City => Some(Field::State),
        Field::State => Some(Field::Zip),
        Field::Zip => Some(Field::Country),
        Field::Country => Some(Field::PackageLink),
        Field::PackageLink => Some(Field::Description),
        Field::Description => Some(Field::Hours),
        Field::Hours => None,
    }
}

/// Every entry must be given but the second line of the address.
pub open spec fn is_required(field: Field) -> bool {
    field != Field::AddressLine2
}

/// What the line suggests while nothing is typed.
pub open spec fn placeholder_text(field: Field) -> Seq<char> {
    match field {
        Field::Name => "Fiona Hackworth"@,
        Field::SlackHandle => "@fiona"@,
        Field::Email => "fiona@hackclub.com"@,
        Field::AddressLine1 => "Address Line 1"@,
        Field::AddressLine2 => "Address Line 2 (optional)"@,
        Field::City => "City"@,
        Field::State => "State/Province"@,
        Field::Zip => "ZIP/Postal Code"@,
        Field::Country => "Country"@,
        Field::PackageLink => "https://crates.io/crates/hc-cargo-cult"@,
        Field::Description => "A CLI form to collect responses for the Cargo Cult YSWS."@,
        Field::Hours => "3 hours, plus 5 hours learning Rust"@,
    }
}

/// A blank line follows the entry: it is the last of its group.
pub open spec fn closes_group(field: Field) -> bool {
    match field {
        Field::AddressLine1 | Field::AddressLine2 | Field::City | Field::State | Field::Zip => false,
        _ => true,
    }
}

/// The question that is asked before the entry, for the entries that begin
/// a group. The question for the Slack handle greets the user by `name`; the
/// question for the package link shows `badge`, the name of the registry as
/// it is drawn.
pub open spec fn heading_text(field: Field, name: Seq<char>, badge: Seq<char>) -> Option<
    Seq<char>,
> {
    match field {
        Field::Name => Some("  First thing's first... what's your name?"@),
        Field::SlackHandle => Some("  Hi, "@ + name + "! What's your Slack handle?"@),
        Field::Email => Some("  Now, what's your email?"@),
        Field::AddressLine1 => Some("  Now, for your address. Please fill in the following:"@),
        Field::PackageLink => Some("  What's the link to your package on "@ + badge + "?"@),
        Field::Description => Some("  Write a short description for your project."@),
        Field::Hours => Some("  How many hours did you spend on your project?"@),
        _ => None,
    }
}

/// What is written before the line of an entry: its question in bold on a
/// line of its own, if it has one.
pub open spec fn opening(field: Field, name: Seq<char>, badge: Seq<char>) -> Seq<char> {
    match heading_text(field, name, badge) {
        Some(question) => bold_text(question) + crlf(),
        None => Seq::empty(),
    }
}

/// What is written after the line of an entry: the line is closed, and a
/// blank line follows the last entry of a group.
pub open spec fn between(field: Field) -> Seq<char> {
    closing() + (if closes_group(field) {
        crlf()
    } else {
        Seq::empty()
    })
}

/// The question about the kind of submission.
pub open spec fn kind_question() -> Seq<char> {
    "Are you submitting a new project or an update?"@
}

/// The kinds of submission, in the order of the list.
pub open spec fn kinds() -> Seq<Seq<char>> {
    seq!["Submission"@, "Update"@]
}

/// The name of the registry, shown in the question for the package link.
pub open spec fn registry_name() -> Seq<char> {
    "crates.io"@
}

/// The thanks after a submission.
pub open spec fn thanks_text() -> Seq<char> {
    "   Wahoo! Thanks for submitting. "@
}

impl Submission {
    /// The record with one entry replaced.
    pub open spec fn with(self, field: Field, value: Seq<char>) -> Submission {
        match field {
            Field::Name => Submission { name: value, ..self },
            Field::SlackHandle => Submission { slack_handle: value, ..self },
            Field::Email => Submission { email: value, ..self },
            Field::AddressLine1 => Submission { address_line1: value, ..self },
            Field::AddressLine2 => Submission { address_line2: value, ..self },
            Field::City => Submission { city: value, ..self },
            Field::State => Submission { state: value, ..self },
            Field::Zip => Submission { zip: value, ..self },
            Field::Country => Submission { country: value, ..self },
            Field::PackageLink => Submission { package_link: value, ..self },
            Field::Description => Submission { description: value, ..self },
            Field::Hours => Submission { hours: value, ..self },
        }
    }

    /// One entry of the record.
    pub open spec fn entry(self, field: Field) -> Seq<char> {
        match field {
            Field::Name => self.name,
            Field::SlackHandle => self.slack_handle,
            Field::Email => self.email,
            Field::AddressLine1 => self.address_line1,
            Field::AddressLine2 => self.address_line2,
            Field::City => self.city,
            Field::State => self.state,
            Field::Zip => self.zip,
            Field::Country => self.country,
            Field::PackageLink => self.package_link,
            Field::Description => self.description,
            Field::Hours => self.hours,
        }
    }
}

impl Field {
    /// The entry the form asks for first.
    pub fn first() -> (field: Field)
        ensures
            field == Field::Name,
    {
        Field::Name
    }

    /// The entry that is asked for after this one, if any.
    pub fn next(self) -> (field: Option<Field>)
        ensures
            field == next_field(self),
    {
        match self {
            Field::Name => Some(Field::SlackHandle),
            Field::SlackHandle => Some(Field::Email),
            Field::Email => Some(Field::AddressLine1),
            Field::AddressLine1 => Some(Field::AddressLine2),
            Field::AddressLine2 => Some(Field::City),
            Field::City => Some(Field::State),
            Field::State => Some(Field::Zip),
            Field::Zip => Some(Field::Country),
            Field::Country => Some(Field::PackageLink),
            Field::PackageLink => Some(Field::Description),
            Field::Description => Some(Field::Hours),
            Field::Hours => None,
        }
    }

    /// Whether the entry must be given.
    pub fn required(self) -> (required: bool)
        ensures
            required == is_required(self),
    {
        match self {
            Field::AddressLine2 => false,
            _ => true,
        }
    }

    /// What the line suggests while nothing is typed.
    pub fn placeholder(self) -> (text: &'static str)
        ensures
            text@ == placeholder_text(self),
    {
        match self {
            Field::Name => "Fiona Hackworth",
            Field::SlackHandle => "@fiona",
            Field::Email => "fiona@hackclub.com",
            Field::AddressLine1 => "Address Line 1",
            Field::AddressLine2 => "Address Line 2 (optional)",
            Field::City => "City",
            Field::State => "State/Province",
            Field::Zip => "ZIP/Postal Code",
            Field::Country => "Country",
            Field::PackageLink => "https://crates.io/crates/hc-cargo-cult",
            Field::Description => "A CLI form to collect responses for the Cargo Cult YSWS.",
            Field::Hours => "3 hours, plus 5 hours learning Rust",
        }
    }

    /// Whether a blank line follows the entry.
    pub fn ends_group(self) -> (ends: bool)
        ensures
            ends == closes_group(self),
    {
        match self {
            Field::AddressLine1
            | Field::AddressLine2
            | Field::City
            | Field::State
            | Field::Zip => false,
            _ => true,
        }
    }

    /// The question that is asked before the entry, if there is one.
    pub fn heading(self, name: &str, badge: &str) -> (question: Option<String>)
        ensures
            match question {
                Some(text) => heading_text(self, name@, badge@) == Some(text@),
                None => heading_text(self, name@, badge@) is None,
            },
    {
        match self {
            Field::Name => Some(String::from_str("  First thing's first... what's your name?")),
            Field::SlackHandle => {
                let mut text = String::from_str("  Hi, ");
                text.append(name);
                text.append("! What's your Slack handle?");
                Some(text)
            },
            Field::Email => Some(String::from_str("  Now, what's your email?")),
            Field::AddressLine1 => Some(
                String::from_str("  Now, for your address. Please fill in the following:"),
            ),
            Field::PackageLink => {
                let mut text = String::from_str("  What's the link to your package on ");
                text.append(badge);
                text.append("?");
                Some(text)
            },
            Field::Description => Some(
                String::from_str("  Write a short description for your project."),
            ),
            Field::Hours => Some(
                String::from_str("  How many hours did you spend on your project?"),
            ),
            _ => None,
        }
    }
}

impl FormData {
    /// Replaces one entry of the record.
    pub fn set(&mut self, field: Field, value: String)
        ensures
            final(self)@ == old(self)@.with(field, value@),
    {
        match field {
            Field::Name => {
                self.name = value;
            },
            Field::SlackHandle => {
                self.slack_handle = value;
            },
            Field::Email => {
                self.email = value;
            },
            Field::AddressLine1 => {
                self.address_line1 = value;
            },
            Field::AddressLine2 => {
                self.address_line2 = value;
            },
            Field::City => {
                self.city = value;
            },
            Field::State => {
                self.state = value;
            },
            Field::Zip => {
                self.zip = value;
            },
            Field::Country => {
                self.country = value;
            },
            Field::PackageLink => {
                self.package_link = value;
            },
            Field::Description => {
                self.description = value;
            },
            Field::Hours => {
                self.hours = value;
            },
        }
    }

    /// One entry of the record.
    pub fn get(&self, field: Field) -> (value: &String)
        ensures
            value@ == self@.entry(field),
    {
        match field {
            Field::Name => &self.name,
            Field::SlackHandle => &self.slack_handle,
            Field::Email => &self.email,
            Field::AddressLine1 => &self.address_line1,
            Field::AddressLine2 => &self.address_line2,
            Field::City => &self.city,
            Field::State => &self.state,
            Field::Zip => &self.zip,
            Field::Country => &self.country,
            Field::PackageLink => &self.package_link,
            Field::Description => &self.description,
            Field::Hours => &self.hours,
        }
    }
}

/// Entries that were set can be read back, and setting one entry leaves the
/// others alone.
pub proof fn lemma_set_then_get(s: Submission, field: Field, value: Seq<char>, other: Field)
    ensures
        s.with(field, value).entry(field) == value,
        other != field ==> s.with(field, value).entry(other) == s.entry(other),
        s.with(field, value).submission_type == s.submission_type,
        s.with(field, value).package_name == s.package_name,
{
}

/// The order of the form reaches every entry once: from the first entry,
/// `next_field` walks through all twelve and then ends.
pub proof fn lemma_every_field_is_asked(field: Field)
    ensures
        exists|steps: nat| steps < 12 && #[trigger] advance(Field::Name, steps) == Some(field),
        advance(Field::Name, 12) is None,
{
    reveal_with_fuel(advance, 13);
    match field {
        Field::Name => assert(advance(Field::Name, 0) == Some(field)),
        Field::SlackHandle => assert(advance(Field::Name, 1) == Some(field)),
        Field::Email => assert(advance(Field::Name, 2) == Some(field)),
        Field::AddressLine1 => assert(advance(Field::Name, 3) == Some(field)),
        Field::AddressLine2 => assert(advance(Field::Name, 4) == Some(field)),
        Field::City => assert(advance(Field::Name, 5) == Some(field)),
        Field::State => assert(advance(Field::Name, 6) == Some(field)),
        Field::Zip => assert(advance(Field::Name, 7) == Some(field)),
        Field::Country => assert(advance(Field::Name, 8) == Some(field)),
        Field::PackageLink => assert(advance(Field::Name, 9) == Some(field)),
        Field::Description => assert(advance(Field::Name, 10) == Some(field)),
        Field::Hours => assert(advance(Field::Name, 11) == Some(field)),
    }
}

/// The entry reached from `field` after `steps` steps of the form.
pub open spec fn advance(field: Field, steps: nat) -> Option<Field>
    decreases steps,
{
    if steps == 0 {
        Some(field)
    } else {
        match advance(field, (steps - 1) as nat) {
            Some(earlier) => next_field(earlier),
            None => None,
        }
    }
}

/// Where the form stands.
#[derive(Clone, Copy, Debug, PartialEq, Eq, Structural)]
pub enum FormStage {
    /// The kind of submission is being chosen.
    ChoosingKind,
    /// The line of this entry is being typed.
    Asking(Field),
    /// Every entry was given.
    Complete,
}

/// What the session is to do after a key reached the form.
#[derive(Debug, PartialEq, Eq)]
pub enum FormStep {
    /// Write this and wait for the next key.
    Print(String),
    /// Write this; the record is complete and is to be handed in.
    Submit(String, FormData),
    /// Ctrl-C: the session ends.
    Exit,
}

/// The mathematical value of a [`FormStep`].
pub enum FormStepView {
    Print(Seq<char>),
    Submit(Seq<char>, Submission),
    Exit,
}

impl View for FormStep {
    type V = FormStepView;

    open spec fn view(&self) -> FormStepView {
        match self {
            FormStep::Print(out) => FormStepView::Print(out@),
            FormStep::Submit(out, data) => FormStepView::Submit(out@, data@),
            FormStep::Exit => FormStepView::Exit,
        }
    }
}

/// The mathematical value of a [`SubmissionForm`].
pub struct FormFlow {
    /// The record as far as it is filled.
    pub data: Submission,
    pub stage: FormStage,
    /// The list of kinds of submission.
    pub kind: Selection,
    /// The line that is being typed, once the kind is chosen.
    pub prompt: Prompt,
    /// The name of the registry as it is drawn.
    pub badge: Seq<char>,
}

/// The prompt is the one that asks for `field`, with nothing typed yet.
pub open spec fn fresh_prompt(p: Prompt, field: Field) -> bool {
    &&& p.entered_text == Seq::<char>::empty()
    &&& p.pending == Seq::<u8>::empty()
    &&& p.default_text == placeholder_text(field)
    &&& p.required == is_required(field)
    &&& dimmed(p.placeholder, placeholder_text(field))
    &&& alarming(p.warning, required_notice())
}

/// How the form answers a key: what it is afterwards, and what the session
/// is told to do.
///
/// While the kind is chosen, keys go to the list; Enter records the kind and
/// asks for the first entry. While an entry is asked for, keys go to its
/// line; an Enter that the line accepts records the entry and asks for the
/// next one, or, after the last one, hands the record in. Ctrl-C ends the
/// session at any time, and a complete form ignores every other key.
pub open spec fn form_follows(
    old: FormFlow,
    code: Option<AsciiCode>,
    new: FormFlow,
    step: FormStepView,
) -> bool {
    if code == Some(AsciiCode::EoT) {
        new == old && step is Exit
    } else {
        match old.stage {
            FormStage::ChoosingKind => if code == Some(AsciiCode::Enter) {
                &&& new.stage == FormStage::Asking(Field::Name)
                &&& new.data == Submission {
                    submission_type: kinds()[old.kind.selected_index as int],
                    ..old.data
                }
                &&& new.kind == old.kind
                &&& new.badge == old.badge
                &&& fresh_prompt(new.prompt, Field::Name)
                &&& step == FormStepView::Print(
                    closing() + opening(Field::Name, new.data.name, new.badge)
                        + new.prompt.line(),
                )
            } else {
                &&& new == FormFlow { kind: old.kind.after(code), ..old }
                &&& step == FormStepView::Print(new.kind.frame(false))
            },
            FormStage::Asking(field) => if code == Some(AsciiCode::Enter) {
                if old.prompt.accepts() {
                    let data = old.data.with(field, old.prompt.entered_text);
                    match next_field(field) {
                        Some(next) => {
                            &&& new.stage == FormStage::Asking(next)
                            &&& new.data == data
                            &&& new.kind == old.kind
                            &&& new.badge == old.badge
                            &&& fresh_prompt(new.prompt, next)
                            &&& step == FormStepView::Print(
                                between(field) + opening(next, data.name, new.badge)
                                    + new.prompt.line(),
                            )
                        },
                        None => {
                            &&& new == FormFlow { stage: FormStage::Complete, data: data, ..old }
                            &&& step == FormStepView::Submit(between(field), data)
                        },
                    }
                } else {
                    &&& new == old
                    &&& step == FormStepView::Print(old.prompt.warning_line())
                }
            } else {
                &&& new == FormFlow { prompt: old.prompt.typed(code), ..old }
                &&& step == FormStepView::Print(new.prompt.line())
            },
            FormStage::Complete => new == old && step == FormStepView::Print(Seq::empty()),
        }
    }
}

/// The form was just opened on a terminal of `rows` rows: nothing is filled
/// in, and the first kind of submission is highlighted.
pub open spec fn fresh_form(form: FormFlow, rows: nat) -> bool {
    &&& form.stage == FormStage::ChoosingKind
    &&& form.data == crate::database::blank_submission()
    &&& form.kind.options == kinds()
    &&& form.kind.selected_index == 0
    &&& form.kind.viewport_rows == viewport(total_lines(kinds()), rows)
    &&& form.kind.scroll_offset == scrolled(
        0,
        0,
        line_count(kinds()[0]),
        form.kind.viewport_rows,
    )
    &&& fresh_prompt(form.prompt, Field::Name)
    &&& badged(form.badge, registry_name())
}

/// The submission form while it is being filled.
#[derive(Debug)]
pub struct SubmissionForm {
    data: FormData,
    stage: FormStage,
    kind: SelectState,
    prompt: PromptState,
    badge: String,
}

impl View for SubmissionForm {
    type V = FormFlow;

    closed spec fn view(&self) -> FormFlow {
        FormFlow {
            data: self.data@,
            stage: self.stage,
            kind: self.kind@,
            prompt: self.prompt@,
            badge: self.badge@,
        }
    }
}

/// Appends to `out` what is written before the line of `field`.
fn push_opening(out: &mut String, field: Field, name: &str, badge: &str)
    ensures
        final(out)@ == old(out)@ + opening(field, name@, badge@),
{
    match field.heading(name, badge) {
        Some(question) => {
            let shown = bold(question.as_str());
            out.append(shown.as_str());
            out.append(crlf_str());
            assert(out@ =~= old(out)@ + opening(field, name@, badge@));
        },
        None => {
            assert(out@ =~= old(out)@ + opening(field, name@, badge@));
        },
    }
}

/// The thanks that are written once a submission was handed in, as the
/// terminal library writes them, closed by a line break and followed by a
/// blank line.
pub fn submitted_notice() -> (out: String)
    ensures
        exists|banner: Seq<char>|
            celebrating(banner, thanks_text()) && out@ == banner + crlf() + crlf(),
{
    let banner = write_bold("   Wahoo! Thanks for submitting. ", Some(WHITE), Some(DARK_BLUE));
    let mut out = String::new();
    out.append(banner.as_str());
    out.append(crlf_str());
    out.append(crlf_str());
    assert(out@ =~= banner@ + crlf() + crlf());
    assert(celebrating(banner@, thanks_text()));
    out
}

impl SubmissionForm {
    /// The form is well formed: its list is, and holds the kinds of
    /// submission.
    pub closed spec fn wf(&self) -> bool {
        &&& self.kind.wf()
        &&& self.kind@.options == kinds()
    }

    /// The list of a well-formed form is well formed and offers the kinds of
    /// submission.
    pub proof fn lemma_wf(&self)
        requires
            self.wf(),
        ensures
            self@.kind.wf(),
            self@.kind.options == kinds(),
    {
        self.kind.lemma_wf();
    }

    /// A blank form on a terminal of `terminal_rows` rows, and what is to be
    /// written first: the question about the kind of submission and the list
    /// of kinds, with the first kind highlighted.
    pub fn start(terminal_rows: u32) -> (started: (SubmissionForm, String))
        ensures
            started.0.wf(),
            fresh_form(started.0@, terminal_rows as nat),
            started.1@ == bold_text(kind_question()) + crlf() + started.0@.kind.frame(true),
    {
        let mut options: Vec<String> = Vec::new();
        options.push(String::from_str("Submission"));
        options.push(String::from_str("Update"));
        proof {
            let texts = strings_of(options@);
            assert(texts =~= kinds());
            reveal_strlit("Submission");
            reveal_strlit("Update");
            lemma_split_len_bound(texts[0], crlf(), 0);
            lemma_split_len_bound(texts[1], crlf(), 0);
            reveal_with_fuel(lines_before, 3);
            assert(lines_before(texts, 2) == line_count(texts[0]) + line_count(texts[1]));
        }
        let kind = match SelectState::new(options, terminal_rows) {
            Some(kind) => kind,
            None => unreached(),
        };
        let question = bold("Are you submitting a new project or an update?");
        let first = kind.render(true);
        let mut out = String::new();
        out.append(question.as_str());
        out.append(crlf_str());
        out.append(first.as_str());
        let first_field = Field::first();
        let form = SubmissionForm {
            data: FormData::new(),
            stage: FormStage::ChoosingKind,
            kind,
            prompt: PromptState::new(first_field.placeholder(), first_field.required()),
            badge: write_plain("crates.io", Some(WHITE), Some(DARK_MAGENTA)),
        };
        (form, out)
    }

    /// The record as far as it is filled.
    pub fn data(&self) -> (data: &FormData)
        ensures
            data@ == self@.data,
    {
        &self.data
    }

    /// Where the form stands.
    pub fn stage(&self) -> (stage: FormStage)
        ensures
            stage == self@.stage,
    {
        self.stage
    }

    /// Takes one key; see [`form_follows`].
    pub fn handle(&mut self, code: &TerminalCode) -> (step: FormStep)
        requires
            old(self).wf(),
        ensures
            final(self).wf(),
            form_follows(old(self)@, code@.code, final(self)@, step@),
    {
        match self.stage {
            FormStage::ChoosingKind => {
                proof {
                    self.kind.lemma_wf();
                }
                match self.kind.handle(code) {
                    SelectStep::Exit => FormStep::Exit,
                    SelectStep::Redraw(out) => FormStep::Print(out),
                    SelectStep::Chosen(index, out) => {
                        let mut out = out;
                        let chosen = if index == 0 {
                            String::from_str("Submission")
                        } else {
                            String::from_str("Update")
                        };
                        assert(chosen@ == kinds()[index as int]);
                        self.data.submission_type = chosen;
                        let field = Field::first();
                        self.prompt = PromptState::new(field.placeholder(), field.required());
                        self.stage = FormStage::Asking(field);
                        push_opening(
                            &mut out,
                            field,
                            self.data.name.as_str(),
                            self.badge.as_str(),
                        );
                        let line = self.prompt.render();
                        out.append(line.as_str());
                        FormStep::Print(out)
                    },
                }
            },
            FormStage::Asking(field) => {
                match self.prompt.handle(code) {
                    PromptStep::Exit => FormStep::Exit,
                    PromptStep::Redraw(out) => FormStep::Print(out),
                    PromptStep::Entered(text, out) => {
                        let mut out = out;
                        self.data.set(field, text);
                        if field.ends_group() {
                            out.append(crlf_str());
                        }
                        assert(out@ =~= between(field));
                        match field.next() {
                            Some(next) => {
                                self.prompt = PromptState::new(
                                    next.placeholder(),
                                    next.required(),
                                );
                                self.stage = FormStage::Asking(next);
                                push_opening(
                                    &mut out,
                                    next,
                                    self.data.name.as_str(),
                                    self.badge.as_str(),
                                );
                                let line = self.prompt.render();
                                out.append(line.as_str());
                                FormStep::Print(out)
                            },
                            None => {
                                self.stage = FormStage::Complete;
                                FormStep::Submit(out, self.data.duplicate())
                            },
                        }
                    },
                }
            },
            FormStage::Complete => {
                match code.ascii_code {
                    Some(AsciiCode::EoT) => FormStep::Exit,
                    _ => FormStep::Print(String::new()),
                }
            },
        }
    }
}

} // verus!
