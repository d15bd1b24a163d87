//! The record that the submission form fills.

use vstd::prelude::*;
use vstd::string::StringExecFns;

verus! {

/// One submission: who sends it, where a prize would go, and what is
/// submitted. `package_name` is set by the data store once a submission is
/// approved; the form leaves it empty.
#[derive(Clone, Debug, PartialEq, Eq)]
pub struct FormData {
    /// "Submission" or "Update".
    pub submission_type: String,
    pub name: String,
    pub slack_handle: String,
    pub email: String,
    pub address_line1: String,
    pub address_line2: String,
    pub city: String,
    pub state: String,
    pub zip: String,
    pub country: String,
    pub package_link: String,
    pub description: String,
    pub hours: String,
    pub package_name: Option<String>,
}

/// The mathematical value of a [`FormData`].
pub struct Submission {
    pub submission_type: Seq<char>,
    pub name: Seq<char>,
    pub slack_handle: Seq<char>,
    pub email: Seq<char>,
    pub address_line1: Seq<char>,
    pub address_line2: Seq<char>,
    pub city: Seq<char>,
    pub state: Seq<char>,
    pub zip: Seq<char>,
    pub country: Seq<char>,
    pub package_link: Seq<char>,
    pub description: Seq<char>,
    pub hours: Seq<char>,
    pub package_name: Option<Seq<char>>,
}

impl View for FormData {
    type V = Submission;

    open spec fn view(&self) -> Submission {
        Submission {
            submission_type: self.submission_type@,
            name: self.name@,
            slack_handle: self.slack_handle@,
            email: self.email@,
            address_line1: self.address_line1@,
            address_line2: self.address_line2@,
            city: self.city@,
            state: self.state@,
            zip: self.zip@,
            country: self.country@,
            package_link: self.package_link@,
            description: self.description@,
            hours: self.hours@,
            package_name: match self.package_name {
                Some(name) => Some(name@),
                None => None,
            },
        }
    }
}

/// The record before anything was entered: a new submission with every
/// field empty and no package name.
pub open spec fn blank_submission() -> Submission {
    Submission {
        submission_type: "Submission"@,
        name: Seq::empty(),
        slack_handle: Seq::empty(),
        email: Seq::empty(),
        address_line1: Seq::empty(),
        address_line2: Seq::empty(),
        city: Seq::empty(),
        state: Seq::empty(),
        zip: Seq::empty(),
        country: Seq::empty(),
        package_link: Seq::empty(),
        description: Seq::empty(),
        hours: Seq::empty(),
        package_name: None,
    }
}

/// The record as a block of text: one labelled line per entry, the address
/// on lines of its own, the second address line only where it was given.
pub open spec fn summary_text(s: Submission) -> Seq<char> {
    "Name: "@ + s.name + "\n"@ + "Slack Handle: "@ + s.slack_handle + "\n"@ + "Email: "@ + s.email
        + "\n"@ + "Address:\n"@ + s.address_line1 + "\n"@ + s.address_line2 + (if s.address_line2.len()
        == 0 {
        Seq::empty()
    } else {
        "\n"@
    }) + s.city + "\n"@ + s.state + "\n"@ + s.zip + "\n"@ + s.country + "\n"@ + "Package Link: "@
        + s.package_link + "\n"@ + "Description: \n"@ + s.description + "\n"@ + "Hours: "@ + s.hours
        + "\n\n"@
}

impl FormData {
    /// A blank record.
    pub fn new() -> (data: FormData)
        ensures
            data@ == blank_submission(),
    {
        FormData {
            submission_type: String::from_str("Submission"),
            name: String::new(),
            slack_handle: String::new(),
            email: String::new(),
            address_line1: String::new(),
            address_line2: String::new(),
            city: String::new(),
            state: String::new(),
            zip: String::new(),
            country: String::new(),
            package_link: String::new(),
            description: String::new(),
            hours: String::new(),
            package_name: None,
        }
    }

    /// A copy of the record.
    pub fn duplicate(&self) -> (copy: FormData)
        ensures
            copy@ == self@,
    {
        FormData {
            submission_type: self.submission_type.clone(),
            name: self.name.clone(),
            slack_handle: self.slack_handle.clone(),
            email: self.email.clone(),
            address_line1: self.address_line1.clone(),
            address_line2: self.address_line2.clone(),
            city: self.city.clone(),
            state: self.state.clone(),
            zip: self.zip.clone(),
            country: self.country.clone(),
            package_link: self.package_link.clone(),
            description: self.description.clone(),
            hours: self.hours.clone(),
            package_name: match &self.package_name {
                Some(name) => Some(name.clone()),
                None => None,
            },
        }
    }

    /// The record as a block of text, for a log or a file of responses.
    pub fn summary(&self) -> (out: String)
        ensures
            out@ == summary_text(self@),
    {
        let mut out = String::from_str("Name: ");
        out.append(self.name.as_str());
        out.append("\n");
        out.append("Slack Handle: ");
        out.append(self.slack_handle.as_str());
        out.append("\n");
        out.append("Email: ");
        out.append(self.email.as_str());
        out.append("\n");
        out.append("Address:\n");
        out.append(self.address_line1.as_str());
        out.append("\n");
        out.append(self.address_line2.as_str());
        if !self.address_line2.as_str().is_empty() {
            out.append("\n");
        }
        out.append(self.city.as_str());
        out.append("\n");
        out.append(self.state.as_str());
        out.append("\n");
        out.append(self.zip.as_str());
        out.append("\n");
        out.append(self.country.as_str());
        out.append("\n");
        out.append("Package Link: ");
        out.append(self.package_link.as_str());
        out.append("\n");
        out.append("Description: \n");
        out.append(self.description.as_str());
        out.append("\n");
        out.append("Hours: ");
        out.append(self.hours.as_str());
        out.append("\n\n");
        assert(out@ =~= summary_text(self@));
        out
    }
}

/// The address of the data store's interface.
pub open spec fn store_address() -> Seq<char> {
    "https://api.airtable.com/v0"@
}

/// How many submissions are asked for at most.
pub open spec fn page_query() -> Seq<char> {
    "?maxRecords=100&view="@
}

/// The address of a table of the data store.
pub open spec fn table_address(base_id: Seq<char>, table: Seq<char>) -> Seq<char> {
    store_address() + "/"@ + base_id + "/"@ + table
}

/// The address from which a view of a table is read, one page of it.
pub open spec fn view_address(base_id: Seq<char>, table: Seq<char>, view: Seq<char>) -> Seq<
    char,
> {
    table_address(base_id, table) + page_query() + view
}

/// The value of the header that carries the key of the data store.
pub open spec fn bearer_text(key: Seq<char>) -> Seq<char> {
    "Bearer "@ + key
}

/// The address to which a new record of a table is sent.
pub fn create_url(base_id: &str, table: &str) -> (url: String)
    ensures
        url@ == table_address(base_id@, table@),
{
    let mut url = String::from_str("https://api.airtable.com/v0");
    url.append("/");
    url.append(base_id);
    url.append("/");
    url.append(table);
    url
}

/// The address from which the records of a view are read: the first page of
/// at most a hundred records.
pub fn list_url(base_id: &str, table: &str, view: &str) -> (url: String)
    ensures
        url@ == view_address(base_id@, table@, view@),
{
    let mut url = create_url(base_id, table);
    url.append("?maxRecords=100&view=");
    url.append(view);
    url
}

/// The value of the authorization header for a key of the data store.
pub fn bearer(key: &str) -> (value: String)
    ensures
        value@ == bearer_text(key@),
{
    let mut value = String::from_str("Bearer ");
    value.append(key);
    value
}

} // verus!
