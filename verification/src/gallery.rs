//! The gallery: approved submissions as entries of a list.

use vstd::prelude::*;
use vstd::string::StringExecFns;
use crate::database::{FormData, Submission};
use crate::text::{crlf, crlf_str};
use crate::wrap::{fixed_width, wrap_text};

verus! {

/// The records of a list of submissions.
pub open spec fn records_of(records: Seq<FormData>) -> Seq<Submission> {
    records.map_values(|r: FormData| r@)
}

/// A submission can be shown in the gallery when it names its package.
pub open spec fn listed(s: Submission) -> bool {
    s.package_name is Some
}

/// The entry of a submission: the name of its package on the first line and
/// its description below, wrapped at `width` columns.
pub open spec fn entry_text(s: Submission, width: nat) -> Seq<char> {
    wrap_text(s.package_name->0 + crlf() + s.description, width)
}

/// The entries of a list of submissions.
pub open spec fn entry_texts(records: Seq<Submission>, width: nat) -> Seq<Seq<char>> {
    records.map_values(|s: Submission| entry_text(s, width))
}

/// Every submission of the list names its package.
pub open spec fn all_listed(records: Seq<Submission>) -> bool {
    forall|i: int| 0 <= i < records.len() ==> listed(#[trigger] records[i])
}

/// The entry of one submission, or nothing when it names no package.
pub fn gallery_entry(record: &FormData, width: usize) -> (entry: Option<String>)
    ensures
        match entry {
            Some(text) => listed(record@) && text@ == entry_text(record@, width as nat),
            None => !listed(record@),
        },
{
    match &record.package_name {
        Some(name) => {
            let mut text = name.clone();
            text.append(crlf_str());
            text.append(record.description.as_str());
            Some(fixed_width(text.as_str(), width))
        },
        None => None,
    }
}

/// The entries of a list of submissions, in its order, or nothing when one
/// of them names no package.
pub fn gallery_entries(records: &[FormData], width: usize) -> (entries: Option<Vec<String>>)
    ensures
        match entries {
            Some(texts) => {
                &&& all_listed(records_of(records@))
                &&& crate::text::strings_of(texts@) == entry_texts(
                    records_of(records@),
                    width as nat,
                )
            },
            None => !all_listed(records_of(records@)),
        },
{
    let ghost all = records_of(records@);
    let mut texts: Vec<String> = Vec::new();
    let mut i: usize = 0;
    while i < records.len()
        invariant
            i <= records.len(),
            all == records_of(records@),
            forall|k: int| 0 <= k < i ==> listed(#[trigger] all[k]),
            crate::text::strings_of(texts@) == entry_texts(all, width as nat).take(i as int),
        decreases records.len() - i,
    {
        let ghost before = crate::text::strings_of(texts@);
        match gallery_entry(&records[i], width) {
            Some(text) => {
                texts.push(text);
                assert(crate::text::strings_of(texts@) =~= before.push(
                    entry_text(all[i as int], width as nat),
                ));
                assert(entry_texts(all, width as nat).take(i + 1) =~= entry_texts(
                    all,
                    width as nat,
                ).take(i as int).push(entry_text(all[i as int], width as nat)));
            },
            None => {
                assert(!listed(all[i as int]));
                return None;
            },
        }
        i += 1;
    }
    assert(entry_texts(all, width as nat).take(records.len() as int) =~= entry_texts(
        all,
        width as nat,
    ));
    Some(texts)
}

} // verus!
