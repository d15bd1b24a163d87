//! The session as a whole: which screen it shows, what every key does to
//! it, and what it asks of the world around it.
//!
//! The session never waits and never writes. It is told what happened, a key
//! or the answer of the data store or the end of a relay, and answers with
//! the actions that are to be carried out, in order.

use vstd::prelude::*;
use vstd::pervasive::unreached;
use vstd::string::StringExecFns;
use crate::ansi::{
    bold_text, closing, set_title, title_seq, DARK_RED, WHITE,
};
use crate::database::{FormData, Submission};
use crate::form::{
    form_follows, fresh_form, kind_question, FormFlow, FormStage, FormStep, FormStepView,
    SubmissionForm,
    submitted_notice, thanks_text,
};
use crate::gallery::{all_listed, entry_texts, gallery_entries, records_of};
use crate::menu::{menu_labels, menu_order, welcome_text, window_title, MenuOptions};
use crate::params::{text_width_of, TerminalParams};
use crate::relay::{relay_command, relay_command_text};
use crate::select::{line_count, lines_before, SelectState, SelectStep, Selection, viewport};
use crate::terminal::{AsciiCode, TerminalCode};
use crate::text::{
    crlf, crlf_str, lemma_split_len_bound, split, split_str, strings_of, terminate_all,
};
use crate::text_box::{box_text, pieces_fit, text_box, BoxPieces, TextStyle};
use crate::wrap::{fixed_width, wrap_text};
use crate::writer::lf;

verus! {

/// Something the session asks to be done.
#[derive(Debug, PartialEq, Eq)]
pub enum Action {
    /// Write this to the terminal and flush.
    Print(String),
    /// Wait this many milliseconds.
    Pause(u64),
    /// Fetch the approved submissions and hand them to
    /// [`App::gallery_loaded`].
    FetchGallery,
    /// Hand this record to the data store, then call [`App::submitted`].
    Create(FormData),
    /// Run this command through a relay, then call [`App::relay_finished`].
    Relay(String),
    /// Let all output reach the terminal and end the session.
    Exit,
}

/// The mathematical value of an [`Action`].
pub enum ActionView {
    Print(Seq<char>),
    Pause(u64),
    FetchGallery,
    Create(Submission),
    Relay(Seq<char>),
    Exit,
}

impl View for Action {
    type V = ActionView;

    open spec fn view(&self) -> ActionView {
        match self {
            Action::Print(out) => ActionView::Print(out@),
            Action::Pause(millis) => ActionView::Pause(*millis),
            Action::FetchGallery => ActionView::FetchGallery,
            Action::Create(data) => ActionView::Create(data@),
            Action::Relay(command) => ActionView::Relay(command@),
            Action::Exit => ActionView::Exit,
        }
    }
}

/// The values of a list of actions.
pub open spec fn actions_of(actions: Seq<Action>) -> Seq<ActionView> {
    actions.map_values(|a: Action| a@)
}

/// What the session shows.
#[derive(Debug)]
pub enum Screen {
    /// The menu.
    Menu(SelectState),
    /// The submission form.
    Form(SubmissionForm),
    /// Nothing yet: the approved submissions are being fetched.
    GalleryLoading,
    /// The gallery, with the submissions behind its entries.
    Gallery(SelectState, Vec<FormData>),
    /// Nothing more: the record is with the data store.
    Uploading,
    /// Whatever the relayed program prints.
    Relay,
    /// The session has ended.
    Done,
}

/// The mathematical value of a [`Screen`].
pub enum ScreenView {
    Menu(Selection),
    Form(FormFlow),
    GalleryLoading,
    Gallery(Selection, Seq<Submission>),
    Uploading,
    Relay,
    Done,
}

impl View for Screen {
    type V = ScreenView;

    open spec fn view(&self) -> ScreenView {
        match self {
            Screen::Menu(menu) => ScreenView::Menu(menu@),
            Screen::Form(form) => ScreenView::Form(form@),
            Screen::GalleryLoading => ScreenView::GalleryLoading,
            Screen::Gallery(list, records) => ScreenView::Gallery(list@, records_of(records@)),
            Screen::Uploading => ScreenView::Uploading,
            Screen::Relay => ScreenView::Relay,
            Screen::Done => ScreenView::Done,
        }
    }
}

impl Screen {
    /// The state behind the screen is well formed.
    pub open spec fn wf(&self) -> bool {
        match self {
            Screen::Menu(menu) => menu.wf() && menu@.options == menu_labels(),
            Screen::Form(form) => form.wf(),
            Screen::Gallery(list, records) => {
                &&& list.wf()
                &&& list@.options.len() == records@.len()
                &&& all_listed(records_of(records@))
            },
            _ => true,
        }
    }
}

/// The mathematical value of an [`App`].
pub struct Session {
    /// The name the user logged in with.
    pub username: Seq<char>,
    /// The width of the terminal.
    pub columns: nat,
    /// The height of the terminal.
    pub rows: nat,
    /// The terminal type.
    pub term: Seq<char>,
    /// The terminal modes, each as its opcode and its value.
    pub modes: Seq<(u8, u32)>,
    /// The picture that opens the session, as it was handed in.
    pub art: Seq<char>,
    /// The text behind the entry of the menu that says what this is.
    pub info: Seq<char>,
    /// The text behind the entry of the menu that says how to start.
    pub how_to_start: Seq<char>,
    pub screen: ScreenView,
}

/// The pause after each line of the opening picture, in milliseconds.
pub const LINE_PAUSE_MILLIS: u64 = 50;

/// A text whose lines end in a line feed, with every line ended for a raw
/// terminal instead. What follows the last line feed counts as a line too.
pub open spec fn art_text(raw: Seq<char>) -> Seq<char> {
    terminate_all(split(raw, lf()), crlf())
}

/// The lines printed one by one, each followed by a pause.
pub open spec fn lines_slowly(lines: Seq<Seq<char>>) -> Seq<ActionView>
    decreases lines.len(),
{
    if lines.len() == 0 {
        Seq::empty()
    } else {
        lines_slowly(lines.drop_last()) + seq![
            ActionView::Print(lines.last() + crlf()),
            ActionView::Pause(LINE_PAUSE_MILLIS),
        ]
    }
}

/// A text printed line by line, with a pause after each line.
pub open spec fn slow_print(text: Seq<char>) -> Seq<ActionView> {
    lines_slowly(split(text, crlf()))
}

/// The style of the greeting: white and bold.
pub open spec fn greeting_style() -> TextStyle {
    TextStyle { foreground: Some(WHITE), bold: true }
}

/// `out` is the greeting in its box: white and bold on dark red, with one
/// row above and below, three columns on either side and a margin of two.
pub open spec fn is_welcome_box(out: Seq<char>) -> bool {
    exists|p: BoxPieces|
        pieces_fit(p, welcome_text(), greeting_style(), DARK_RED, 3, 2) && out == box_text(p, 1)
}

/// The list is a menu that was just opened on a terminal of `rows` rows.
pub open spec fn fresh_menu(menu: Selection, rows: nat) -> bool {
    &&& menu.options == menu_labels()
    &&& menu.selected_index == 0
    &&& menu.viewport_rows == viewport(crate::select::total_lines(menu_labels()), rows)
    &&& menu.scroll_offset == crate::select::scrolled(
        0,
        0,
        line_count(menu_labels()[0]),
        menu.viewport_rows,
    )
}

/// What is written for an entry of the menu that stands for a text: the
/// choice is closed, the text follows, wrapped to the terminal, then a blank
/// line and the menu, opened anew.
pub open spec fn page(old: Session, text: Seq<char>, fresh: Selection) -> Seq<char> {
    closing() + wrap_text(text, text_width_of(old.columns)) + crlf() + fresh.frame(true)
}

/// What a key does on the menu. Ctrl-C ends the session. Enter opens what
/// the highlighted entry stands for: one of the two texts, after which the
/// menu is shown anew; the gallery, which has to be fetched first; or the
/// submission form. Any other key goes to the list.
pub open spec fn menu_follows(
    old: Session,
    menu: Selection,
    code: Option<AsciiCode>,
    screen: ScreenView,
    actions: Seq<ActionView>,
) -> bool {
    if code == Some(AsciiCode::EoT) {
        screen is Done && actions == seq![ActionView::Exit]
    } else if code == Some(AsciiCode::Enter) {
        match menu_order()[menu.selected_index as int] {
            MenuOptions::Info => {
                &&& screen matches ScreenView::Menu(fresh)
                &&& fresh_menu(fresh, old.rows)
                &&& actions == seq![ActionView::Print(page(old, old.info, fresh))]
            },
            MenuOptions::HowToStart => {
                &&& screen matches ScreenView::Menu(fresh)
                &&& fresh_menu(fresh, old.rows)
                &&& actions == seq![ActionView::Print(page(old, old.how_to_start, fresh))]
            },
            MenuOptions::Gallery => {
                &&& screen is GalleryLoading
                &&& actions == seq![ActionView::Print(closing()), ActionView::FetchGallery]
            },
            MenuOptions::Submit => {
                &&& screen matches ScreenView::Form(form)
                &&& fresh_form(form, old.rows)
                &&& actions == seq![
                    ActionView::Print(
                        closing() + bold_text(kind_question()) + crlf() + form.kind.frame(true),
                    ),
                ]
            },
        }
    } else {
        &&& screen == ScreenView::Menu(menu.after(code))
        &&& actions == seq![ActionView::Print(menu.after(code).frame(false))]
    }
}

/// What a key does on the form: the form decides (see [`form_follows`]).
/// What the form prints is printed, and a complete record goes to the data
/// store.
pub open spec fn form_screen_follows(
    form: FormFlow,
    code: Option<AsciiCode>,
    screen: ScreenView,
    actions: Seq<ActionView>,
) -> bool {
    if code == Some(AsciiCode::EoT) {
        screen is Done && actions == seq![ActionView::Exit]
    } else {
        ||| {
            &&& screen matches ScreenView::Form(next)
            &&& actions.len() == 1
            &&& actions[0] matches ActionView::Print(out)
            &&& form_follows(form, code, next, FormStepView::Print(out))
        }
        ||| {
            &&& screen is Uploading
            &&& actions.len() == 2
            &&& actions[0] matches ActionView::Print(out)
            &&& actions[1] matches ActionView::Create(data)
            &&& form_follows(
                form,
                code,
                FormFlow { stage: FormStage::Complete, data: data, ..form },
                FormStepView::Submit(out, data),
            )
        }
    }
}

/// What a key does in the gallery. Ctrl-C ends the session. Enter starts
/// the relay for the highlighted submission: the command names the user, the
/// package and its author. Any other key goes to the list.
pub open spec fn gallery_follows(
    old: Session,
    list: Selection,
    records: Seq<Submission>,
    code: Option<AsciiCode>,
    screen: ScreenView,
    actions: Seq<ActionView>,
) -> bool {
    if code == Some(AsciiCode::EoT) {
        screen is Done && actions == seq![ActionView::Exit]
    } else if code == Some(AsciiCode::Enter) {
        let chosen = records[list.selected_index as int];
        &&& screen is Relay
        &&& actions == seq![
            ActionView::Print(closing()),
            ActionView::Relay(
                relay_command_text(old.username, chosen.package_name->0, chosen.name),
            ),
        ]
    } else {
        &&& screen == ScreenView::Gallery(list.after(code), records)
        &&& actions == seq![ActionView::Print(list.after(code).frame(false))]
    }
}

/// The two sessions differ in nothing but the screen.
pub open spec fn same_setting(old: Session, new: Session) -> bool {
    new == Session { screen: new.screen, ..old }
}

/// How the session answers a key. A screen that waits for something else
/// than a key ignores it.
pub open spec fn key_follows(
    old: Session,
    code: Option<AsciiCode>,
    new: Session,
    actions: Seq<ActionView>,
) -> bool {
    &&& same_setting(old, new)
    &&& match old.screen {
        ScreenView::Menu(menu) => menu_follows(old, menu, code, new.screen, actions),
        ScreenView::Form(form) => form_screen_follows(form, code, new.screen, actions),
        ScreenView::Gallery(list, records) => gallery_follows(
            old,
            list,
            records,
            code,
            new.screen,
            actions,
        ),
        _ => new.screen == old.screen && actions == Seq::<ActionView>::empty(),
    }
}

/// The gallery can be shown: there is a submission, every submission names
/// its package, and the lines of all entries can be counted.
pub open spec fn showable(records: Seq<Submission>, width: nat) -> bool {
    &&& records.len() > 0
    &&& all_listed(records)
    &&& crate::select::total_lines(entry_texts(records, width)) <= usize::MAX
}

/// How the session answers the approved submissions. While it waits for
/// them it opens the gallery with the first entry highlighted, or ends where
/// the gallery cannot be shown; at any other time it ignores them.
pub open spec fn loaded_follows(
    old: Session,
    records: Seq<Submission>,
    new: Session,
    actions: Seq<ActionView>,
) -> bool {
    &&& same_setting(old, new)
    &&& if old.screen is GalleryLoading {
        let width = text_width_of(old.columns);
        if showable(records, width) {
            &&& new.screen matches ScreenView::Gallery(list, shown)
            &&& shown == records
            &&& list.options == entry_texts(records, width)
            &&& list.selected_index == 0
            &&& list.viewport_rows == viewport(
                crate::select::total_lines(list.options),
                old.rows,
            )
            &&& list.scroll_offset == crate::select::scrolled(
                0,
                0,
                line_count(list.options[0]),
                list.viewport_rows,
            )
            &&& actions == seq![ActionView::Print(list.frame(true))]
        } else {
            new.screen is Done && actions == seq![ActionView::Exit]
        }
    } else {
        new.screen == old.screen && actions == Seq::<ActionView>::empty()
    }
}

/// `out` is the thanks for a submission, as the terminal library draws them.
pub open spec fn is_thanks(out: Seq<char>) -> bool {
    exists|banner: Seq<char>|
        crate::ansi::celebrating(banner, thanks_text()) && out == banner + crlf() + crlf()
}

/// How the session answers the news that the data store has failed: while
/// it waits for the data store it ends, since nothing can be done about the
/// failure; at any other time it ignores the news.
pub open spec fn failure_follows(old: Session, new: Session, actions: Seq<ActionView>) -> bool {
    &&& same_setting(old, new)
    &&& if old.screen is GalleryLoading || old.screen is Uploading {
        new.screen is Done && actions == seq![ActionView::Exit]
    } else {
        new.screen == old.screen && actions == Seq::<ActionView>::empty()
    }
}

/// How the session answers the news that the record is stored: it gives
/// thanks and ends. At any other time than after handing a record in, it
/// ignores the news.
pub open spec fn submitted_follows(old: Session, new: Session, actions: Seq<ActionView>) -> bool {
    &&& same_setting(old, new)
    &&& if old.screen is Uploading {
        &&& new.screen is Done
        &&& actions.len() == 2
        &&& actions[0] matches ActionView::Print(out)
        &&& is_thanks(out)
        &&& actions[1] is Exit
    } else {
        new.screen == old.screen && actions == Seq::<ActionView>::empty()
    }
}

/// How the session answers the end of a relay, whether the program ended
/// or its time ran out: the session ends. At any other time than during a
/// relay, it ignores the news.
pub open spec fn relay_follows(old: Session, new: Session, actions: Seq<ActionView>) -> bool {
    &&& same_setting(old, new)
    &&& if old.screen is Relay {
        new.screen is Done && actions == seq![ActionView::Exit]
    } else {
        new.screen == old.screen && actions == Seq::<ActionView>::empty()
    }
}

/// The session is asked to end exactly when it reaches its last screen: a
/// key brings an exit if and only if it ends a session that had not ended.
pub proof fn lemma_exit_ends_the_session(
    old: Session,
    code: Option<AsciiCode>,
    new: Session,
    actions: Seq<ActionView>,
)
    requires
        key_follows(old, code, new, actions),
    ensures
        actions.contains(ActionView::Exit) <==> (new.screen is Done && !(old.screen is Done)),
        old.screen is Done ==> new.screen is Done && actions.len() == 0,
{
    match old.screen {
        ScreenView::Menu(menu) => {
            if code == Some(AsciiCode::EoT) {
                assert(actions[0] == ActionView::Exit);
            }
        },
        ScreenView::Form(form) => {
            if code == Some(AsciiCode::EoT) {
                assert(actions[0] == ActionView::Exit);
            }
        },
        ScreenView::Gallery(list, records) => {
            if code == Some(AsciiCode::EoT) {
                assert(actions[0] == ActionView::Exit);
            }
        },
        _ => {},
    }
}

/// A session.
#[derive(Debug)]
pub struct App {
    params: TerminalParams,
    art: String,
    info: String,
    how_to_start: String,
    screen: Screen,
}

impl View for App {
    type V = Session;

    closed spec fn view(&self) -> Session {
        Session {
            username: self.params.username@,
            columns: self.params.col_width as nat,
            rows: self.params.row_height as nat,
            term: self.params.term@,
            modes: self.params.modes@,
            art: self.art@,
            info: self.info@,
            how_to_start: self.how_to_start@,
            screen: self.screen@,
        }
    }
}

/// The menu, just opened on a terminal of `rows` rows.
fn open_menu(rows: u32) -> (menu: SelectState)
    ensures
        menu.wf(),
        fresh_menu(menu@, rows as nat),
{
    let labels = MenuOptions::labels();
    proof {
        let texts = strings_of(labels@);
        reveal_strlit("What is this?\r\n  (+ resources & criteria)");
        reveal_strlit("How do I start?");
        reveal_strlit("Submit your project");
        reveal_strlit("See the gallery");
        lemma_split_len_bound(texts[0], crlf(), 0);
        lemma_split_len_bound(texts[1], crlf(), 0);
        lemma_split_len_bound(texts[2], crlf(), 0);
        lemma_split_len_bound(texts[3], crlf(), 0);
        reveal_with_fuel(lines_before, 5);
        assert(lines_before(texts, 4) == line_count(texts[0]) + line_count(texts[1]) + line_count(
            texts[2],
        ) + line_count(texts[3]));
        assert(texts.len() == 4);
        assert(texts[0].len() < 100 && texts[1].len() < 100 && texts[2].len() < 100
            && texts[3].len() < 100);
    }
    match SelectState::new(labels, rows) {
        Some(menu) => menu,
        None => unreached(),
    }
}

/// The text with every line ended for a raw terminal.
fn end_lines(raw: &str) -> (out: String)
    ensures
        out@ == art_text(raw@),
{
    proof {
        reveal_strlit("\n");
    }
    assert("\n"@ =~= lf());
    let lines = split_str(raw, "\n");
    let ghost texts = strings_of(lines@);
    let mut out = String::new();
    let mut i: usize = 0;
    while i < lines.len()
        invariant
            i <= lines.len(),
            texts == strings_of(lines@),
            out@ == terminate_all(texts.take(i as int), crlf()),
        decreases lines.len() - i,
    {
        out.append(lines[i].as_str());
        out.append(crlf_str());
        proof {
            assert(texts.take(i + 1).drop_last() =~= texts.take(i as int));
            assert(texts.take(i + 1).last() == lines@[i as int]@);
        }
        i += 1;
    }
    assert(texts.take(lines.len() as int) =~= texts);
    out
}

/// Appends to `actions` what prints `text` line by line.
fn push_slowly(actions: &mut Vec<Action>, text: &str)
    ensures
        actions_of(final(actions)@) == actions_of(old(actions)@) + slow_print(text@),
{
    let lines = split_str(text, crlf_str());
    let ghost texts = strings_of(lines@);
    let ghost start = actions_of(actions@);
    let mut i: usize = 0;
    assert(actions_of(actions@) =~= start + lines_slowly(texts.take(0)));
    while i < lines.len()
        invariant
            i <= lines.len(),
            texts == strings_of(lines@),
            actions_of(actions@) == start + lines_slowly(texts.take(i as int)),
        decreases lines.len() - i,
    {
        let ghost before = actions_of(actions@);
        let mut line = lines[i].clone();
        line.append(crlf_str());
        actions.push(Action::Print(line));
        actions.push(Action::Pause(LINE_PAUSE_MILLIS));
        proof {
            assert(texts.take(i + 1).drop_last() =~= texts.take(i as int));
            assert(texts.take(i + 1).last() == lines@[i as int]@);
            assert(actions_of(actions@) =~= before + seq![
                ActionView::Print(lines@[i as int]@ + crlf()),
                ActionView::Pause(LINE_PAUSE_MILLIS),
            ]);
        }
        i += 1;
    }
    assert(texts.take(lines.len() as int) =~= texts);
}

impl App {
    /// The session is well formed: the state behind its screen is.
    pub closed spec fn wf(&self) -> bool {
        self.screen.wf()
    }

    /// A session on the given terminal that shows the menu, with the picture
    /// that opens it and the two texts behind the first entries of the menu.
    /// The lines of the picture end in a line feed.
    pub fn new(params: TerminalParams, art: String, info: String, how_to_start: String) -> (app:
        App)
        ensures
            app.wf(),
            app@.username == params.username@,
            app@.columns == params.col_width,
            app@.rows == params.row_height,
            app@.term == params.term@,
            app@.modes == params.modes@,
            app@.art == art@,
            app@.info == info@,
            app@.how_to_start == how_to_start@,
            app@.screen matches ScreenView::Menu(menu) && fresh_menu(menu, params.row_height as nat),
    {
        let menu = open_menu(params.row_height);
        App { params, art, info, how_to_start, screen: Screen::Menu(menu) }
    }

    /// What the session shows.
    pub fn screen(&self) -> (screen: &Screen)
        ensures
            screen@ == self@.screen,
    {
        &self.screen
    }

    /// The terminal of the session.
    pub fn params(&self) -> (params: &TerminalParams)
        ensures
            params.username@ == self@.username,
            params.col_width == self@.columns,
            params.row_height == self@.rows,
            params.term@ == self@.term,
            params.modes@ == self@.modes,
    {
        &self.params
    }

    /// Begins the session: the window gets its title, the picture is printed
    /// line by line, the greeting follows in its box, and the menu is drawn.
    /// From then on the session answers what happens; see
    /// [`App::handle_key`].
    pub fn run(&self) -> (actions: Vec<Action>)
        requires
            self.wf(),
            self@.screen is Menu,
        ensures
            exists|greeting: Seq<char>|
                is_welcome_box(greeting) && actions_of(actions@) == seq![
                    ActionView::Print(title_seq(window_title())),
                ] + slow_print(art_text(self@.art)) + seq![
                    ActionView::Print(greeting + crlf()),
                    ActionView::Print(self@.screen->Menu_0.frame(true)),
                ],
    {
        let mut actions: Vec<Action> = Vec::new();
        actions.push(Action::Print(set_title("cargo cult")));
        let picture = end_lines(self.art.as_str());
        push_slowly(&mut actions, picture.as_str());
        let ghost shown = actions_of(actions@);
        assert(shown =~= seq![ActionView::Print(title_seq(window_title()))] + slow_print(
            art_text(self@.art),
        ));
        let greeting = text_box(
            "Welcome to the Cargo Cult!",
            TextStyle { foreground: Some(WHITE), bold: true },
            DARK_RED,
            1,
            3,
            2,
        );
        assert(is_welcome_box(greeting@));
        let mut boxed = greeting;
        boxed.append(crlf_str());
        actions.push(Action::Print(boxed));
        match &self.screen {
            Screen::Menu(menu) => {
                actions.push(Action::Print(menu.render(true)));
            },
            _ => {},
        }
        assert(actions_of(actions@) =~= shown + seq![
            ActionView::Print(greeting@ + crlf()),
            ActionView::Print(self@.screen->Menu_0.frame(true)),
        ]);
        actions
    }

    /// Appends to `out` a text of the menu, wrapped to the terminal, a blank
    /// line and the first drawing of the menu that follows it.
    fn push_page(&self, out: &mut String, text: &str, fresh: &SelectState)
        requires
            fresh.wf(),
        ensures
            final(out)@ == old(out)@ + wrap_text(text@, text_width_of(self@.columns)) + crlf()
                + fresh@.frame(true),
    {
        let wrapped = fixed_width(text, self.params.text_width());
        let first = fresh.render(true);
        out.append(wrapped.as_str());
        out.append(crlf_str());
        out.append(first.as_str());
    }

    /// Takes one key and says what is to be done about it; see
    /// [`key_follows`].
    pub fn handle_key(&mut self, code: &TerminalCode) -> (actions: Vec<Action>)
        requires
            old(self).wf(),
        ensures
            final(self).wf(),
            key_follows(old(self)@, code@.code, final(self)@, actions_of(actions@)),
    {
        let mut actions: Vec<Action> = Vec::new();
        let mut screen = Screen::Done;
        core::mem::swap(&mut self.screen, &mut screen);
        match screen {
            Screen::Menu(menu) => {
                let mut menu = menu;
                let ghost before = menu@;
                match menu.handle(code) {
                    SelectStep::Exit => {
                        actions.push(Action::Exit);
                        assert(actions_of(actions@) =~= seq![ActionView::Exit]);
                    },
                    SelectStep::Redraw(out) => {
                        actions.push(Action::Print(out));
                        assert(actions_of(actions@) =~= seq![ActionView::Print(out@)]);
                        self.screen = Screen::Menu(menu);
                    },
                    SelectStep::Chosen(index, out) => {
                        let mut out = out;
                        match MenuOptions::at(index) {
                            Some(MenuOptions::Info) => {
                                let fresh = open_menu(self.params.row_height);
                                self.push_page(&mut out, self.info.as_str(), &fresh);
                                actions.push(Action::Print(out));
                                assert(actions_of(actions@) =~= seq![ActionView::Print(out@)]);
                                self.screen = Screen::Menu(fresh);
                            },
                            Some(MenuOptions::HowToStart) => {
                                let fresh = open_menu(self.params.row_height);
                                self.push_page(&mut out, self.how_to_start.as_str(), &fresh);
                                actions.push(Action::Print(out));
                                assert(actions_of(actions@) =~= seq![ActionView::Print(out@)]);
                                self.screen = Screen::Menu(fresh);
                            },
                            Some(MenuOptions::Gallery) => {
                                actions.push(Action::Print(out));
                                actions.push(Action::FetchGallery);
                                assert(actions_of(actions@) =~= seq![
                                    ActionView::Print(out@),
                                    ActionView::FetchGallery,
                                ]);
                                self.screen = Screen::GalleryLoading;
                            },
                            Some(MenuOptions::Submit) => {
                                let (form, first) = SubmissionForm::start(self.params.row_height);
                                out.append(first.as_str());
                                assert(out@ =~= closing() + bold_text(kind_question()) + crlf()
                                    + form@.kind.frame(true));
                                actions.push(Action::Print(out));
                                assert(actions_of(actions@) =~= seq![ActionView::Print(out@)]);
                                self.screen = Screen::Form(form);
                            },
                            None => {
                                proof {
                                    menu.lemma_wf();
                                }
                                unreached::<()>();
                            },
                        }
                    },
                }
            },
            Screen::Form(form) => {
                let mut form = form;
                match form.handle(code) {
                    FormStep::Exit => {
                        actions.push(Action::Exit);
                        assert(actions_of(actions@) =~= seq![ActionView::Exit]);
                    },
                    FormStep::Print(out) => {
                        actions.push(Action::Print(out));
                        assert(actions_of(actions@)[0] == ActionView::Print(out@));
                        self.screen = Screen::Form(form);
                    },
                    FormStep::Submit(out, data) => {
                        actions.push(Action::Print(out));
                        actions.push(Action::Create(data));
                        assert(actions_of(actions@)[0] == ActionView::Print(out@));
                        assert(actions_of(actions@)[1] == ActionView::Create(data@));
                        self.screen = Screen::Uploading;
                    },
                }
            },
            Screen::Gallery(list, records) => {
                let mut list = list;
                proof {
                    list.lemma_wf();
                }
                match list.handle(code) {
                    SelectStep::Exit => {
                        actions.push(Action::Exit);
                        assert(actions_of(actions@) =~= seq![ActionView::Exit]);
                    },
                    SelectStep::Redraw(out) => {
                        actions.push(Action::Print(out));
                        assert(actions_of(actions@) =~= seq![ActionView::Print(out@)]);
                        self.screen = Screen::Gallery(list, records);
                    },
                    SelectStep::Chosen(index, out) => {
                        let chosen = &records[index];
                        assert(crate::gallery::listed(records_of(records@)[index as int]));
                        let command = match &chosen.package_name {
                            Some(package) => relay_command(
                                self.params.username.as_str(),
                                package.as_str(),
                                chosen.name.as_str(),
                            ),
                            None => unreached(),
                        };
                        actions.push(Action::Print(out));
                        actions.push(Action::Relay(command));
                        assert(actions_of(actions@) =~= seq![
                            ActionView::Print(out@),
                            ActionView::Relay(command@),
                        ]);
                        self.screen = Screen::Relay;
                    },
                }
            },
            other => {
                assert(actions_of(actions@) =~= Seq::<ActionView>::empty());
                self.screen = other;
            },
        }
        actions
    }

    /// Leaves the menu for a relay to the named project, for a user who
    /// asked for it when logging in. The author of the project is not known
    /// then and stays empty in the command. On any other screen nothing
    /// happens.
    pub fn run_project(&mut self, project: &str) -> (actions: Vec<Action>)
        requires
            old(self).wf(),
        ensures
            final(self).wf(),
            same_setting(old(self)@, final(self)@),
            if old(self)@.screen is Menu {
                &&& final(self)@.screen is Relay
                &&& actions_of(actions@) == seq![
                    ActionView::Relay(
                        relay_command_text(old(self)@.username, project@, Seq::empty()),
                    ),
                ]
            } else {
                &&& final(self)@.screen == old(self)@.screen
                &&& actions_of(actions@) == Seq::<ActionView>::empty()
            },
    {
        let mut actions: Vec<Action> = Vec::new();
        match self.screen {
            Screen::Menu(_) => {
                proof {
                    reveal_strlit("");
                }
                assert(""@ =~= Seq::<char>::empty());
                let command = relay_command(self.params.username.as_str(), project, "");
                actions.push(Action::Relay(command));
                assert(actions_of(actions@) =~= seq![ActionView::Relay(command@)]);
                self.screen = Screen::Relay;
            },
            _ => {
                assert(actions_of(actions@) =~= Seq::<ActionView>::empty());
            },
        }
        actions
    }

    /// Leaves the menu for the gallery without a key: the approved
    /// submissions are to be fetched. On any other screen nothing happens.
    pub fn gallery(&mut self) -> (actions: Vec<Action>)
        requires
            old(self).wf(),
        ensures
            final(self).wf(),
            same_setting(old(self)@, final(self)@),
            if old(self)@.screen is Menu {
                &&& final(self)@.screen is GalleryLoading
                &&& actions_of(actions@) == seq![ActionView::FetchGallery]
            } else {
                &&& final(self)@.screen == old(self)@.screen
                &&& actions_of(actions@) == Seq::<ActionView>::empty()
            },
    {
        let mut actions: Vec<Action> = Vec::new();
        match self.screen {
            Screen::Menu(_) => {
                actions.push(Action::FetchGallery);
                assert(actions_of(actions@) =~= seq![ActionView::FetchGallery]);
                self.screen = Screen::GalleryLoading;
            },
            _ => {
                assert(actions_of(actions@) =~= Seq::<ActionView>::empty());
            },
        }
        actions
    }

    /// Takes the approved submissions; see [`loaded_follows`].
    pub fn gallery_loaded(&mut self, records: Vec<FormData>) -> (actions: Vec<Action>)
        requires
            old(self).wf(),
        ensures
            final(self).wf(),
            loaded_follows(old(self)@, records_of(records@), final(self)@, actions_of(actions@)),
    {
        let mut actions: Vec<Action> = Vec::new();
        match self.screen {
            Screen::GalleryLoading => {},
            _ => {
                assert(actions_of(actions@) =~= Seq::<ActionView>::empty());
                return actions;
            },
        }
        let width: usize = self.params.text_width();
        let list = match gallery_entries(records.as_slice(), width) {
            Some(entries) => SelectState::new(entries, self.params.row_height),
            None => None,
        };
        match list {
            Some(list) => {
                let first = list.render(true);
                actions.push(Action::Print(first));
                assert(actions_of(actions@) =~= seq![ActionView::Print(first@)]);
                proof {
                    list.lemma_wf();
                }
                self.screen = Screen::Gallery(list, records);
            },
            None => {
                actions.push(Action::Exit);
                assert(actions_of(actions@) =~= seq![ActionView::Exit]);
                self.screen = Screen::Done;
            },
        }
        actions
    }

    /// Takes the news that the data store has failed; see
    /// [`failure_follows`].
    pub fn store_failed(&mut self) -> (actions: Vec<Action>)
        requires
            old(self).wf(),
        ensures
            final(self).wf(),
            failure_follows(old(self)@, final(self)@, actions_of(actions@)),
    {
        let mut actions: Vec<Action> = Vec::new();
        match self.screen {
            Screen::GalleryLoading | Screen::Uploading => {
                actions.push(Action::Exit);
                assert(actions_of(actions@) =~= seq![ActionView::Exit]);
                self.screen = Screen::Done;
            },
            _ => {
                assert(actions_of(actions@) =~= Seq::<ActionView>::empty());
            },
        }
        actions
    }

    /// Takes the news that the record is stored; see [`submitted_follows`].
    pub fn submitted(&mut self) -> (actions: Vec<Action>)
        requires
            old(self).wf(),
        ensures
            final(self).wf(),
            submitted_follows(old(self)@, final(self)@, actions_of(actions@)),
    {
        let mut actions: Vec<Action> = Vec::new();
        match self.screen {
            Screen::Uploading => {
                let notice = submitted_notice();
                assert(is_thanks(notice@));
                actions.push(Action::Print(notice));
                actions.push(Action::Exit);
                assert(actions_of(actions@)[0] == ActionView::Print(notice@));
                assert(actions_of(actions@)[1] == ActionView::Exit);
                self.screen = Screen::Done;
            },
            _ => {
                assert(actions_of(actions@) =~= Seq::<ActionView>::empty());
            },
        }
        actions
    }

    /// Takes the news that the relay has ended; see [`relay_follows`].
    pub fn relay_finished(&mut self) -> (actions: Vec<Action>)
        requires
            old(self).wf(),
        ensures
            final(self).wf(),
            relay_follows(old(self)@, final(self)@, actions_of(actions@)),
    {
        let mut actions: Vec<Action> = Vec::new();
        match self.screen {
            Screen::Relay => {
                actions.push(Action::Exit);
                assert(actions_of(actions@) =~= seq![ActionView::Exit]);
                self.screen = Screen::Done;
            },
            _ => {
                assert(actions_of(actions@) =~= Seq::<ActionView>::empty());
            },
        }
        actions
    }
}

} // verus!
