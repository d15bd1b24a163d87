//! The menu of a session, and what is shown around it.

use vstd::prelude::*;
use vstd::string::StringExecFns;

verus! {

/// An entry of the menu.
#[derive(Clone, Copy, Debug, PartialEq, Eq, Structural)]
pub enum MenuOptions {
    /// What the programme is about.
    Info,
    /// How to take part.
    HowToStart,
    /// The submission form.
    Submit,
    /// The gallery of approved submissions.
    Gallery,
}

/// The text of a menu entry; the first entry runs over two lines.
pub open spec fn label_text(option: MenuOptions) -> Seq<char> {
    match option {
        MenuOptions::Info => "What is this?\r\n  (+ resources & criteria)"@,
        MenuOptions::HowToStart => "How do I start?"@,
        MenuOptions::Submit => "Submit your project"@,
        MenuOptions::Gallery => "See the gallery"@,
    }
}

/// The entries in the order of the menu.
pub open spec fn menu_order() -> Seq<MenuOptions> {
    seq![MenuOptions::Info, MenuOptions::HowToStart, MenuOptions::Gallery, MenuOptions::Submit]
}

/// The texts of the menu, in its order.
pub open spec fn menu_labels() -> Seq<Seq<char>> {
    seq![
        label_text(MenuOptions::Info),
        label_text(MenuOptions::HowToStart),
        label_text(MenuOptions::Gallery),
        label_text(MenuOptions::Submit),
    ]
}

/// The title of the terminal window during a session.
pub open spec fn window_title() -> Seq<char> {
    "cargo cult"@
}

/// The greeting above the menu.
pub open spec fn welcome_text() -> Seq<char> {
    "Welcome to the Cargo Cult!"@
}

impl MenuOptions {
    /// The text of the entry.
    pub fn label(self) -> (text: String)
        ensures
            text@ == label_text(self),
    {
        match self {
            MenuOptions::Info => String::from_str("What is this?\r\n  (+ resources & criteria)"),
            MenuOptions::HowToStart => String::from_str("How do I start?"),
            MenuOptions::Submit => String::from_str("Submit your project"),
            MenuOptions::Gallery => String::from_str("See the gallery"),
        }
    }

    /// The entry at a position of the menu, if the menu is that long.
    pub fn at(index: usize) -> (option: Option<MenuOptions>)
        ensures
            match option {
                Some(o) => index < menu_order().len() && o == menu_order()[index as int],
                None => index >= menu_order().len(),
            },
    {
        if index == 0 {
            Some(MenuOptions::Info)
        } else if index == 1 {
            Some(MenuOptions::HowToStart)
        } else if index == 2 {
            Some(MenuOptions::Gallery)
        } else if index == 3 {
            Some(MenuOptions::Submit)
        } else {
            None
        }
    }

    /// The texts of the menu, in its order.
    pub fn labels() -> (texts: Vec<String>)
        ensures
            crate::text::strings_of(texts@) == menu_labels(),
    {
        let mut texts: Vec<String> = Vec::new();
        texts.push(MenuOptions::Info.label());
        texts.push(MenuOptions::HowToStart.label());
        texts.push(MenuOptions::Gallery.label());
        texts.push(MenuOptions::Submit.label());
        assert(crate::text::strings_of(texts@) =~= menu_labels());
        texts
    }
}

} // verus!
