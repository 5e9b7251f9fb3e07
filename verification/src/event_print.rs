//! An event on paper.

use crate::dates::{formatted, DateTime};
use crate::event_editor::{reminder_at, reminder_label};
use crate::model::texts_of;
use crate::pieces::{join, joined};
use crate::text::has_prefix;
use vstd::prelude::*;

verus! {

/// What the form of the event editor shows, for printing.
#[derive(Debug)]
pub struct PrintForm {
    pub all_day: bool,
    pub start: DateTime,
    pub end: DateTime,
    /// The rule of a series that the form cannot show.
    pub unrepresentable_rule: Option<String>,
    /// The rule that the form holds, in words.
    pub rule: Option<String>,
    pub calendar: Option<String>,
    pub location: String,
    pub attendees: Vec<String>,
    pub video_enabled: bool,
    pub conference_url: String,
    pub categories: String,
    pub transparency: usize,
    pub sensitivity: usize,
    pub reminder: usize,
}

/// A row of the printed table: a label and a value.
#[derive(Debug)]
pub struct PrintRow {
    pub label: &'static str,
    pub value: String,
}

/// A row as text.
pub struct RowView {
    pub label: Seq<char>,
    pub value: Seq<char>,
}

/// Rows as text.
pub open spec fn row_views(rows: Seq<PrintRow>) -> Seq<RowView> {
    rows.map_values(|r: PrintRow| RowView { label: r.label@, value: r.value@ })
}

/// When the event takes place.
pub open spec fn when_text(form: PrintForm) -> Seq<char> {
    let pattern = if form.all_day {
        "%A, %B %-e, %Y"@
    } else {
        "%A, %B %-e, %Y · %H:%M"@
    };
    formatted(form.start.date.number as int, form.start.secs as int, pattern) + " – "@ + formatted(
        form.end.date.number as int,
        form.end.secs as int,
        pattern,
    )
}

/// How the event repeats.
pub open spec fn series_text(form: PrintForm) -> Seq<char> {
    match form.unrepresentable_rule {
        Some(raw) => raw@,
        None => match form.rule {
            Some(rule) => rule@,
            None => "Does not repeat"@,
        },
    }
}

/// A row that is there under a condition.
pub open spec fn row_if(there: bool, label: Seq<char>, value: Seq<char>) -> Seq<RowView> {
    if there {
        seq![RowView { label, value }]
    } else {
        Seq::empty()
    }
}

/// The label of a reminder.
pub open spec fn reminder_text(index: usize) -> Seq<char> {
    if index == 1 {
        "At time of event"@
    } else if index == 2 {
        "5 minutes before"@
    } else if index == 3 {
        "10 minutes before"@
    } else if index == 4 {
        "15 minutes before"@
    } else if index == 5 {
        "30 minutes before"@
    } else if index == 6 {
        "1 hour before"@
    } else if index == 7 {
        "1 day before"@
    } else {
        "No reminder"@
    }
}

/// The rows of the printed table: what the form says, without what is empty.
pub open spec fn print_rows(form: PrintForm) -> Seq<RowView> {
    let attendees = joined(texts_of(form.attendees@), ", "@);
    row_if(true, "When"@, when_text(form)) + row_if(true, "Series"@, series_text(form)) + (
    match form.calendar {
        Some(label) => row_if(true, "Calendar"@, label@),
        None => Seq::empty(),
    }) + row_if(form.location@.len() > 0, "Location"@, form.location@) + row_if(
        attendees.len() > 0,
        "Attendees"@,
        attendees,
    ) + row_if(
        form.video_enabled,
        "Video call"@,
        if form.conference_url@.len() == 0 {
            "Yes"@
        } else {
            form.conference_url@
        },
    ) + row_if(form.categories@.len() > 0, "Categories"@, form.categories@) + row_if(
        true,
        "Show as"@,
        if form.transparency == 1 {
            "Free"@
        } else {
            "Busy"@
        },
    ) + row_if(
        true,
        "Sensitivity"@,
        if form.sensitivity == 1 {
            "Private"@
        } else if form.sensitivity == 2 {
            "Confidential"@
        } else {
            "Public"@
        },
    ) + row_if(true, "Reminder"@, reminder_text(form.reminder))
}

fn add_row(rows: &mut Vec<PrintRow>, label: &'static str, value: String)
    ensures
        row_views(final(rows)@) == row_views(old(rows)@) + row_if(true, label@, value@),
{
    let ghost before = row_views(rows@);
    rows.push(PrintRow { label, value });
    assert(row_views(rows@) =~= before + row_if(true, label@, value@));
}

/// The rows of the printed table.
pub fn printable_rows(form: &PrintForm) -> (r: Vec<PrintRow>)
    requires
        form.start.valid(),
        form.end.valid(),
    ensures
        row_views(r@) == print_rows(*form),
{
    let mut rows: Vec<PrintRow> = Vec::new();
    let mut when = if form.all_day {
        form.start.format("%A, %B %-e, %Y")
    } else {
        form.start.format("%A, %B %-e, %Y · %H:%M")
    };
    when.push_str(" – ");
    if form.all_day {
        when.push_str(&form.end.format("%A, %B %-e, %Y"));
    } else {
        when.push_str(&form.end.format("%A, %B %-e, %Y · %H:%M"));
    }
    add_row(&mut rows, "When", when);
    assert(row_views(rows@) =~= row_if(true, "When"@, when_text(*form)));
    let series = match &form.unrepresentable_rule {
        Some(raw) => raw.clone(),
        None => match &form.rule {
            Some(rule) => rule.clone(),
            None => "Does not repeat".to_owned(),
        },
    };
    add_row(&mut rows, "Series", series);
    let ghost so_far = row_views(rows@);
    if let Some(label) = &form.calendar {
        add_row(&mut rows, "Calendar", label.clone());
    }
    proof {
        if form.calendar is None {
            assert(row_views(rows@) =~= so_far + Seq::<RowView>::empty());
        }
    }
    let ghost so_far = row_views(rows@);
    if !form.location.as_str().is_empty() {
        add_row(&mut rows, "Location", form.location.clone());
    }
    assert(row_views(rows@) =~= so_far + row_if(form.location@.len() > 0, "Location"@, form.location@));
    let ghost so_far = row_views(rows@);
    let attendees = join(&form.attendees, ", ");
    let ghost names = attendees@;
    if !attendees.as_str().is_empty() {
        add_row(&mut rows, "Attendees", attendees);
    }
    assert(row_views(rows@) =~= so_far + row_if(names.len() > 0, "Attendees"@, names));
    let ghost so_far = row_views(rows@);
    if form.video_enabled {
        let value = if form.conference_url.as_str().is_empty() {
            "Yes".to_owned()
        } else {
            form.conference_url.clone()
        };
        add_row(&mut rows, "Video call", value);
    }
    assert(row_views(rows@) =~= so_far + row_if(
        form.video_enabled,
        "Video call"@,
        if form.conference_url@.len() == 0 {
            "Yes"@
        } else {
            form.conference_url@
        },
    ));
    let ghost so_far = row_views(rows@);
    if !form.categories.as_str().is_empty() {
        add_row(&mut rows, "Categories", form.categories.clone());
    }
    assert(row_views(rows@) =~= so_far + row_if(
        form.categories@.len() > 0,
        "Categories"@,
        form.categories@,
    ));
    let busy = if form.transparency == 1 {
        "Free"
    } else {
        "Busy"
    };
    add_row(&mut rows, "Show as", busy.to_owned());
    let sensitivity = if form.sensitivity == 1 {
        "Private"
    } else if form.sensitivity == 2 {
        "Confidential"
    } else {
        "Public"
    };
    add_row(&mut rows, "Sensitivity", sensitivity.to_owned());
    add_row(&mut rows, "Reminder", reminder_label(form.reminder).to_owned());
    rows
}

/// A row of markup: a label and a value that are safe to stand in a document.
#[derive(Debug)]
pub struct MarkupRow {
    pub label: String,
    pub value: String,
}

/// A row of the table.
pub open spec fn row_markup(row: MarkupRow) -> Seq<char> {
    "<tr><th>"@ + row.label@ + "</th><td>"@ + row.value@ + "</td></tr>"@
}

/// The rows of the table.
pub open spec fn rows_markup(rows: Seq<MarkupRow>) -> Seq<char>
    decreases rows.len(),
{
    if rows.len() == 0 {
        Seq::empty()
    } else {
        rows_markup(rows.drop_last()) + row_markup(rows.last())
    }
}

/// The printed document.
pub open spec fn print_document(title: Seq<char>, rows: Seq<MarkupRow>, description: Seq<char>) -> Seq<char> {
    "<!DOCTYPE html><html><head><meta charset=\"utf-8\"><style>body { font-family: sans-serif; color: #1f2328; margin: 2em; } h1 { font-size: 1.5em; margin: 0 0 0.8em; } table { border-collapse: collapse; } th { text-align: left; padding: 0.2em 1.5em 0.2em 0; vertical-align: top; white-space: nowrap; color: #57606a; font-weight: 600; } td { padding: 0.2em 0; } .description { margin-top: 1.2em; white-space: pre-wrap; }</style></head><body><h1>"@
        + title + "</h1><table>"@ + rows_markup(rows) + "</table>"@ + (if description.len() == 0 {
        Seq::empty()
    } else {
        "<div class=\"description\">"@ + description + "</div>"@
    }) + "</body></html>"@
}

/// The document that is printed, from parts that are safe to stand in a document.
pub fn printable_event_html(title: &str, rows: &Vec<MarkupRow>, description: &str) -> (r: String)
    ensures
        r@ == print_document(title@, rows@, description@),
{
    let mut out =
        "<!DOCTYPE html><html><head><meta charset=\"utf-8\"><style>body { font-family: sans-serif; color: #1f2328; margin: 2em; } h1 { font-size: 1.5em; margin: 0 0 0.8em; } table { border-collapse: collapse; } th { text-align: left; padding: 0.2em 1.5em 0.2em 0; vertical-align: top; white-space: nowrap; color: #57606a; font-weight: 600; } td { padding: 0.2em 0; } .description { margin-top: 1.2em; white-space: pre-wrap; }</style></head><body><h1>".to_owned();
    out.push_str(title);
    out.push_str("</h1><table>");
    let ghost start = out@;
    let mut i: usize = 0;
    assert(rows@.take(0) =~= Seq::<MarkupRow>::empty());
    assert(out@ =~= start + rows_markup(rows@.take(0)));
    while i < rows.len()
        invariant
            i <= rows.len(),
            out@ == start + rows_markup(rows@.take(i as int)),
        decreases rows.len() - i,
    {
        let ghost so_far = rows_markup(rows@.take(i as int));
        assert(rows@.take(i + 1).drop_last() =~= rows@.take(i as int));
        out.push_str("<tr><th>");
        out.push_str(&rows[i].label);
        out.push_str("</th><td>");
        out.push_str(&rows[i].value);
        out.push_str("</td></tr>");
        assert(out@ =~= start + (so_far + row_markup(rows@[i as int])));
        i += 1;
    }
    assert(rows@.take(i as int) =~= rows@);
    out.push_str("</table>");
    let ghost before = out@;
    if !description.is_empty() {
        out.push_str("<div class=\"description\">");
        out.push_str(description);
        out.push_str("</div>");
    }
    assert(out@ =~= before + (if description@.len() == 0 {
        Seq::empty()
    } else {
        "<div class=\"description\">"@ + description@ + "</div>"@
    }));
    out.push_str("</body></html>");
    out
}

/// What is printed says what the form says, under the label that it belongs to, and leaves out what
/// is empty.
pub proof fn lemma_rows_say_form(form: PrintForm)
    ensures
        ({
            let rows = print_rows(form);
            &&& form.location@.len() > 0 ==> rows.contains(RowView { label: "Location"@, value: form.location@ })
            &&& form.categories@.len() > 0 ==> rows.contains(
                RowView { label: "Categories"@, value: form.categories@ },
            )
            &&& form.calendar matches Some(c) ==> rows.contains(RowView { label: "Calendar"@, value: c@ })
            &&& joined(texts_of(form.attendees@), ", "@).len() > 0 ==> rows.contains(
                RowView { label: "Attendees"@, value: joined(texts_of(form.attendees@), ", "@) },
            )
            &&& form.video_enabled && form.conference_url@.len() > 0 ==> rows.contains(
                RowView { label: "Video call"@, value: form.conference_url@ },
            )
            &&& form.unrepresentable_rule matches Some(rule) ==> rows.contains(
                RowView { label: "Series"@, value: rule@ },
            )
            &&& form.unrepresentable_rule is None && form.rule is Some ==> rows.contains(
                RowView { label: "Series"@, value: (form.rule->0)@ },
            )
            &&& rows.contains(
                RowView {
                    label: "Show as"@,
                    value: if form.transparency == 1 {
                        "Free"@
                    } else {
                        "Busy"@
                    },
                },
            )
            &&& rows[0].label == "When"@ && has_prefix(
                rows[0].value,
                formatted(
                    form.start.date.number as int,
                    form.start.secs as int,
                    if form.all_day {
                        "%A, %B %-e, %Y"@
                    } else {
                        "%A, %B %-e, %Y · %H:%M"@
                    },
                ) + " – "@,
            )
            &&& rows.len() == 5 + (if form.location@.len() > 0 {
                1int
            } else {
                0int
            }) + (if form.categories@.len() > 0 {
                1int
            } else {
                0int
            }) + (if form.calendar is Some {
                1int
            } else {
                0int
            }) + (if joined(texts_of(form.attendees@), ", "@).len() > 0 {
                1int
            } else {
                0int
            }) + (if form.video_enabled {
                1int
            } else {
                0int
            })
        }),
{
    let rows = print_rows(form);
    let names = joined(texts_of(form.attendees@), ", "@);
    let calendar: int = if form.calendar is Some {
        1
    } else {
        0
    };
    let location: int = if form.location@.len() > 0 {
        1
    } else {
        0
    };
    let attendees: int = if names.len() > 0 {
        1
    } else {
        0
    };
    let video: int = if form.video_enabled {
        1
    } else {
        0
    };
    let categories: int = if form.categories@.len() > 0 {
        1
    } else {
        0
    };
    let head = formatted(
        form.start.date.number as int,
        form.start.secs as int,
        if form.all_day {
            "%A, %B %-e, %Y"@
        } else {
            "%A, %B %-e, %Y · %H:%M"@
        },
    ) + " – "@;
    assert(rows[0].value == when_text(form));
    assert(when_text(form).take(head.len() as int) =~= head);
    assert(rows[1] == RowView { label: "Series"@, value: series_text(form) });
    if calendar == 1 {
        assert(rows[2] == RowView { label: "Calendar"@, value: (form.calendar->0)@ });
    }
    let n = 2 + calendar;
    if location == 1 {
        assert(rows[n] == RowView { label: "Location"@, value: form.location@ });
    }
    let n = n + location;
    if attendees == 1 {
        assert(rows[n] == RowView { label: "Attendees"@, value: names });
    }
    let n = n + attendees;
    if video == 1 && form.conference_url@.len() > 0 {
        assert(rows[n] == RowView { label: "Video call"@, value: form.conference_url@ });
    }
    let n = n + video;
    if categories == 1 {
        assert(rows[n] == RowView { label: "Categories"@, value: form.categories@ });
    }
    let n = n + categories;
    assert(rows[n].label == "Show as"@);
}

/// What is printed stands in the document: the title at its head, and the description below the
/// table.
pub proof fn lemma_document_holds_parts(title: Seq<char>, rows: Seq<MarkupRow>, description: Seq<char>)
    requires
        description.len() > 0,
    ensures
        ({
            let doc = print_document(title, rows, description);
            let tail = "<div class=\"description\">"@ + description + "</div>"@ + "</body></html>"@;
            &&& exists|i: int|
                0 <= i <= doc.len() - title.len() && #[trigger] doc.subrange(i, i + title.len()) == title
            &&& doc.len() >= tail.len() && doc.skip(doc.len() - tail.len()) == tail
        }),
{
    let doc = print_document(title, rows, description);
    let tail = "<div class=\"description\">"@ + description + "</div>"@ + "</body></html>"@;
    assert(doc.skip(doc.len() - tail.len()) =~= tail);
    let after = "</h1><table>"@ + rows_markup(rows) + "</table>"@ + tail;
    let i = doc.len() - after.len() - title.len();
    assert(doc.subrange(i, i + title.len()) =~= title);
}

/// How visible an event is and when to be reminded of it are the last two rows, and the reminder is
/// printed with the time at which it comes.
pub proof fn lemma_last_rows(form: PrintForm)
    ensures
        ({
            let rows = print_rows(form);
            let n = rows.len() as int;
            &&& n >= 5
            &&& rows[1].label == "Series"@
            &&& form.unrepresentable_rule is None && form.rule is None ==> rows[1].value == "Does not repeat"@
            &&& rows[n - 1].label == "Reminder"@
            &&& reminder_at(form.reminder as int) == Some(0i64) ==> rows[n - 1].value == "At time of event"@
            &&& reminder_at(form.reminder as int) == Some(5i64) ==> rows[n - 1].value == "5 minutes before"@
            &&& reminder_at(form.reminder as int) == Some(10i64) ==> rows[n - 1].value == "10 minutes before"@
            &&& reminder_at(form.reminder as int) == Some(15i64) ==> rows[n - 1].value == "15 minutes before"@
            &&& reminder_at(form.reminder as int) == Some(30i64) ==> rows[n - 1].value == "30 minutes before"@
            &&& reminder_at(form.reminder as int) == Some(60i64) ==> rows[n - 1].value == "1 hour before"@
            &&& reminder_at(form.reminder as int) == Some(1440i64) ==> rows[n - 1].value == "1 day before"@
            &&& reminder_at(form.reminder as int) is None ==> rows[n - 1].value == "No reminder"@
            &&& rows[n - 2].label == "Sensitivity"@
            &&& form.sensitivity == 0 ==> rows[n - 2].value == "Public"@
            &&& form.sensitivity == 1 ==> rows[n - 2].value == "Private"@
            &&& form.sensitivity == 2 ==> rows[n - 2].value == "Confidential"@
            &&& ({
                let pattern = if form.all_day {
                    "%A, %B %-e, %Y"@
                } else {
                    "%A, %B %-e, %Y · %H:%M"@
                };
                let end = formatted(form.end.date.number as int, form.end.secs as int, pattern);
                rows[0].value.len() >= end.len() && rows[0].value.skip(rows[0].value.len() - end.len()) == end
            })
        }),
{
    let rows = print_rows(form);
    let pattern = if form.all_day {
        "%A, %B %-e, %Y"@
    } else {
        "%A, %B %-e, %Y · %H:%M"@
    };
    let end = formatted(form.end.date.number as int, form.end.secs as int, pattern);
    assert(rows[0] == RowView { label: "When"@, value: when_text(form) });
    assert(rows[0].value.skip(rows[0].value.len() - end.len()) =~= end);
}

} // verus!
