//! The journal of a phone's conversations.

use crate::forms::{field, FormFields};
use crate::handlers::devices::{number_field, opt_int};
use crate::models::JournalThreadSummary;
use crate::numbers::as_i64;
use crate::text::{opt_view, same_text};
use vstd::prelude::*;

verus! {

/// The last entry of a conversation.
pub struct JournalThreadRow {
    pub thread_id: i64,
    pub display_name: Option<String>,
    pub entry_type: String,
    pub body: Option<String>,
    pub last_occurred_at: i64,
}

/// What the list shows of the last entry of a conversation.
pub open spec fn preview_of(entry_type: Seq<char>, body: Option<Seq<char>>) -> Seq<char> {
    if entry_type == "MESSAGE"@ {
        match body {
            Some(text) => text,
            None => Seq::empty(),
        }
    } else if entry_type == "MEDIA"@ {
        "\u{1F4CE} Photo/video"@
    } else if entry_type == "CALL"@ {
        "\u{1F4DE} Call"@
    } else {
        Seq::empty()
    }
}

/// What the list shows of the last entry of a conversation.
pub fn preview(entry_type: &str, body: &Option<String>) -> (r: String)
    ensures
        r@ == preview_of(entry_type@, opt_view(*body)),
{
    if same_text(entry_type, "MESSAGE") {
        match body {
            Some(text) => text.clone(),
            None => String::new(),
        }
    } else if same_text(entry_type, "MEDIA") {
        "\u{1F4CE} Photo/video".to_owned()
    } else if same_text(entry_type, "CALL") {
        "\u{1F4DE} Call".to_owned()
    } else {
        String::new()
    }
}

/// The conversations are listed in the same order, each with its last entry.
pub open spec fn summarizes(
    threads: Seq<JournalThreadSummary>,
    rows: Seq<JournalThreadRow>,
) -> bool {
    &&& threads.len() == rows.len()
    &&& forall|i: int|
        0 <= i < threads.len() ==> {
            &&& (#[trigger] threads[i]).thread_id == rows[i].thread_id
            &&& opt_view(threads[i].display_name) == opt_view(rows[i].display_name)
            &&& threads[i].preview@ == preview_of(rows[i].entry_type@, opt_view(rows[i].body))
            &&& threads[i].last_occurred_at == rows[i].last_occurred_at
        }
}

/// The list of conversations.
pub fn thread_summaries(rows: &Vec<JournalThreadRow>) -> (r: Vec<JournalThreadSummary>)
    ensures
        summarizes(r@, rows@),
{
    let mut threads: Vec<JournalThreadSummary> = Vec::new();
    let mut i: usize = 0;
    while i < rows.len()
        invariant
            i <= rows@.len(),
            threads@.len() == i,
            forall|j: int|
                0 <= j < i ==> {
                    &&& (#[trigger] threads@[j]).thread_id == rows@[j].thread_id
                    &&& opt_view(threads@[j].display_name) == opt_view(rows@[j].display_name)
                    &&& threads@[j].preview@ == preview_of(
                        rows@[j].entry_type@,
                        opt_view(rows@[j].body),
                    )
                    &&& threads@[j].last_occurred_at == rows@[j].last_occurred_at
                },
        decreases rows@.len() - i,
    {
        let row = &rows[i];
        threads.push(
            JournalThreadSummary {
                thread_id: row.thread_id,
                display_name: match &row.display_name {
                    Some(name) => Some(name.clone()),
                    None => None,
                },
                preview: preview(row.entry_type.as_str(), &row.body),
                last_occurred_at: row.last_occurred_at,
            },
        );
        i += 1;
    }
    threads
}

/// The conversation to show: the one that a query string names, or else the
/// first.
pub fn selected_thread(params: &FormFields, threads: &Vec<JournalThreadSummary>) -> (r: Option<i64>)
    ensures
        opt_int(r) == match field(params@, "thread_id"@) {
            Some(text) => match as_i64(text) {
                Some(id) => Some(id),
                None => first_thread(threads@),
            },
            None => first_thread(threads@),
        },
{
    match number_field(params, "thread_id") {
        Some(id) => Some(id),
        None => if threads.len() > 0 {
            Some(threads[0].thread_id)
        } else {
            None
        },
    }
}

/// The first conversation of a list.
pub open spec fn first_thread(threads: Seq<JournalThreadSummary>) -> Option<int> {
    if threads.len() > 0 {
        Some(threads[0].thread_id as int)
    } else {
        None
    }
}

/// The title of the page.
pub fn journal_title(device_name: &str) -> (r: String)
    ensures
        r@ == device_name@ + " - Conversations"@,
{
    let mut r = device_name.to_owned();
    r.append(" - Conversations");
    r
}

/// What the page of the journal shows.
pub struct JournalPage {
    pub title: String,
    pub threads: Vec<JournalThreadSummary>,
    pub selected_thread_id: Option<i64>,
}

/// What the page of the journal shows: the conversations, the one with the
/// last entry first, and the one to open.
pub fn show_journal(device_name: &str, rows: &Vec<JournalThreadRow>, params: &FormFields) -> (r:
    JournalPage)
    ensures
        r.title@ == device_name@ + " - Conversations"@,
        summarizes(r.threads@, rows@),
        opt_int(r.selected_thread_id) == match field(params@, "thread_id"@) {
            Some(text) => match as_i64(text) {
                Some(id) => Some(id),
                None => first_thread(r.threads@),
            },
            None => first_thread(r.threads@),
        },
{
    let threads = thread_summaries(rows);
    let selected_thread_id = selected_thread(params, &threads);
    JournalPage { title: journal_title(device_name), threads, selected_thread_id }
}

/// A picture or a recording of a conversation.
pub struct JournalMedia {
    pub media_path: Option<String>,
    pub media_content_type: Option<String>,
}

/// The file to hand out and its type; nothing if there is no such entry or it
/// has no file.
pub fn download_media(entry: Option<JournalMedia>) -> (r: Option<(String, String)>)
    ensures
        match r {
            Some((path, content_type)) => {
                &&& entry is Some
                &&& opt_view(entry->0.media_path) == Some(path@)
                &&& content_type@ == match entry->0.media_content_type {
                    Some(t) => t@,
                    None => "application/octet-stream"@,
                }
            },
            None => entry is None || entry->0.media_path is None,
        },
{
    match entry {
        Some(e) => match e.media_path {
            Some(path) => Some(
                (
                    path,
                    match e.media_content_type {
                        Some(t) => t,
                        None => "application/octet-stream".to_owned(),
                    },
                ),
            ),
            None => None,
        },
        None => None,
    }
}

/// A message is shown with its text, and what is no message by what it is.
pub proof fn law_last_entry_is_shown(entry_type: Seq<char>, text: Seq<char>)
    ensures
        entry_type == "MESSAGE"@ ==> preview_of(entry_type, Some(text)) == text && preview_of(
            entry_type,
            None,
        ).len() == 0,
        entry_type == "MEDIA"@ ==> preview_of(entry_type, Some(text))
            == "\u{1F4CE} Photo/video"@,
        entry_type == "CALL"@ ==> preview_of(entry_type, Some(text)) == "\u{1F4DE} Call"@,
        entry_type != "MESSAGE"@ && entry_type != "MEDIA"@ && entry_type != "CALL"@
            ==> preview_of(entry_type, Some(text)).len() == 0,
{
    reveal_strlit("MESSAGE");
    reveal_strlit("MEDIA");
    reveal_strlit("CALL");
    assert("MESSAGE"@.len() == 7 && "MEDIA"@.len() == 5 && "CALL"@.len() == 4);
}

/// The conversation that is open at first is the one at the head of the list,
/// which is the first that the database gave.
pub proof fn law_first_conversation_is_open(
    threads: Seq<JournalThreadSummary>,
    rows: Seq<JournalThreadRow>,
)
    requires
        summarizes(threads, rows),
    ensures
        rows.len() > 0 ==> first_thread(threads) == Some(rows[0].thread_id as int),
        rows.len() == 0 ==> first_thread(threads) is None,
{
    if rows.len() > 0 {
        assert(threads[0].thread_id == rows[0].thread_id);
    }
}

} // verus!
