//! Contacts: names, lists, imports, the editor and the picker.

use lookout::contact_picker::{is_picked, matching_contacts, no_match_text, pickable_contacts, picked_contacts};
use lookout::contact_picker::{set_picked, shows_address};
use lookout::contacts::{contact_identity, contacts_match_prefix, dedupe_addresses, email_addresses};
use lookout::contacts::{merge_contact_suggestions, new_contact_href, vcard_details_text};
use lookout::contacts::{vcard_display_name, vcard_primary_email, AddressBook, AddressField, Birthday, ContactRecord};
use lookout::contacts::{ContactsAccountSnapshot, EmailField, NameField, TelephoneField, VCard};
use lookout::contacts_editor::{card_from_form, deletable, field_type_index, form_of_card, open_form, parse_birthday};
use lookout::contacts_editor::save_card;
use lookout::contacts_editor::{save_command, writable, ContactEditorPrefill, FieldRow};
use lookout::contacts_pane::{calendar_attendee_suggestions, contact_entries, contacts_pane, desired_choice, import_books};
use lookout::contacts_pane::{is_starred, managed_groups, new_contact_account, set_starred, ContactsBucketKind, Member};
use lookout::contacts_pane::{PaneAccount, PaneRow, SnapshotContactsProvider};
use lookout::contacts_sync::{account_snapshot, batch_summary, begin_book_sync, book_sync_step};
use lookout::contacts_sync::{cards_of_book, create_contact, dav_username, export_body, export_summary, failed_writes};
use lookout::contacts_sync::{import_command, import_contacts, import_summary, joined_records, new_group_name};
use lookout::contacts_sync::{newly_deleted, remove_group, rename_group, snapshot_from_cache, stale_books};
use lookout::contacts_sync::{sync_failure_text, write_report, BookAction, BookEvent, BookSync, ContactCommand};
use lookout::contacts_sync::{ContactsSession, KeptContact};
use lookout::contacts_updates::{remove_commands, rename_commands, take_sync, Routed, SyncEffect};
use lookout::dates::Date;
use lookout::model::EmailAddress;

fn ymd(year: i32, month: u32, day: u32) -> Date {
    Date::from_ymd_opt(year, month, day).unwrap()
}

fn address(name: Option<&str>, address: &str) -> EmailAddress {
    EmailAddress { name: name.map(str::to_string), address: address.to_string() }
}

fn strings(v: &[&str]) -> Vec<String> {
    v.iter().map(|s| s.to_string()).collect()
}

fn card(uid: Option<&str>, full_name: Option<&str>, emails: &[&str]) -> VCard {
    VCard {
        version: "4.0".to_string(),
        kind: None,
        uid: uid.map(str::to_string),
        full_name: full_name.map(str::to_string),
        name: None,
        organization: None,
        title: None,
        emails: emails.iter().map(|e| EmailField { types: vec!["work".to_string()], address: e.to_string() }).collect(),
        telephones: Vec::new(),
        addresses: Vec::new(),
        urls: Vec::new(),
        note: None,
        birthday: None,
        categories: Vec::new(),
        other: Vec::new(),
    }
}

fn record(href: &str, card: VCard) -> ContactRecord {
    ContactRecord { href: href.to_string(), etag: Some(format!("\"{href}\"")), card }
}

fn account(id: &str, name: &str, contacts: Vec<ContactRecord>) -> PaneAccount {
    PaneAccount {
        account_id: id.to_string(),
        snapshot: ContactsAccountSnapshot {
            display_name: name.to_string(),
            books: vec![AddressBook { display_name: "Main".to_string(), href: format!("/{id}/") }],
            contacts,
            suggestions: vec![],
        },
        deleted: vec![],
    }
}

#[test]
fn a_contact_is_called_by_its_name_or_its_address() {
    assert_eq!(vcard_display_name(&card(None, Some("Ada"), &["a@x"])), "Ada");
    let mut c = card(None, Some("  "), &["a@x"]);
    assert_eq!(vcard_display_name(&c), "a@x");
    c.name = Some(NameField {
        prefix: "Dr".to_string(),
        given: " Ada ".to_string(),
        family: "Lovelace".to_string(),
        suffix: " ".to_string(),
    });
    assert_eq!(vcard_display_name(&c), "Dr Ada Lovelace");
    assert_eq!(vcard_display_name(&card(None, None, &[])), "(unnamed contact)");
    assert_eq!(vcard_primary_email(&card(None, None, &[])), "No email address");
    assert_eq!(contact_identity(&card(Some("u"), None, &["a@x"])), "u");
    assert_eq!(contact_identity(&card(None, None, &["a@x"])), "a@x");
    assert_eq!(email_addresses(&card(None, Some("Ada"), &["a@x"]))[0].name.as_deref(), Some("Ada"));
}

#[test]
fn details_are_written_line_by_line() {
    let mut c = card(None, Some("Ada"), &["a@x"]);
    c.telephones = vec![TelephoneField { types: vec![], number: "123".to_string() }];
    c.addresses = vec![AddressField {
        types: vec![],
        po_box: String::new(),
        extended: String::new(),
        street: "Main St".to_string(),
        locality: " ".to_string(),
        region: String::new(),
        postal_code: "12345".to_string(),
        country: String::new(),
        label: None,
    }];
    c.organization = Some(strings(&["Acme ", "", "Labs"]));
    c.title = Some("Countess".to_string());
    c.note = Some(" remember \n".to_string());
    assert_eq!(
        vcard_details_text("Home", "Friends", &c),
        "Account: Home\nCategory: Friends\n\nName: Ada\nEmails:\n  - a@x (work)\nPhones:\n  - 123\nAddresses:\n  - Main St, 12345\nOrganization: Acme / Labs\nTitle: Countess\n\nNotes:\nremember"
    );
}

#[test]
fn suggestions_match_prefixes_in_any_case_and_come_once() {
    assert!(contacts_match_prefix(&address(Some("Ada"), "x@y"), "aD"));
    assert!(contacts_match_prefix(&address(None, "X@y"), "x@"));
    assert!(!contacts_match_prefix(&address(Some("Ada"), "x@y"), "da"));
    assert!(contacts_match_prefix(&address(None, "x@y"), ""));
    let kept = dedupe_addresses(vec![address(None, "A@x "), address(None, "a@X"), address(None, " "), address(None, "b@x")], 9);
    let names: Vec<&str> = kept.iter().map(|a| a.address.as_str()).collect();
    assert_eq!(names, vec!["A@x ", "b@x"]);
    assert_eq!(dedupe_addresses(vec![address(None, "a"), address(None, "b")], 0).len(), 1);
    let merged = merge_contact_suggestions(vec![address(None, "a@x")], &vec![address(None, "a@x"), address(None, "ab@x"), address(None, "b@x")], "a", 8);
    assert_eq!(merged.len(), 2);
    let account = |id: &str, suggestions: Vec<EmailAddress>| PaneAccount {
        account_id: id.to_string(),
        snapshot: ContactsAccountSnapshot { display_name: id.to_string(), books: vec![], contacts: vec![], suggestions },
        deleted: vec![],
    };
    let accounts = vec![
        account("one", vec![address(None, "a@x")]),
        account("two", vec![address(Some("Al"), "z@x"), address(None, "b@x")]),
    ];
    assert_eq!(SnapshotContactsProvider { account: None }.search_contacts(&accounts, " a ", 8).len(), 2);
    let found = SnapshotContactsProvider { account: Some("two".to_string()) }.search_contacts(&accounts, " a ", 8);
    assert_eq!(found.len(), 1);
    assert_eq!(found[0].address, "z@x");
    assert_eq!(calendar_attendee_suggestions(vec![address(None, "A@x")], &accounts, "A").len(), 2);
}

#[test]
fn new_cards_get_a_flat_file_name() {
    assert_eq!(new_contact_href("/book//", &card(Some("c1@example.com"), None, &[])), "/book/c1_example_com.vcf");
    assert_eq!(new_contact_href("/book", &card(Some("../-_"), None, &[])), "/book/contact.vcf");
    assert_eq!(new_contact_href("/book", &card(None, None, &[])), "/book/contact.vcf");
    assert_eq!(new_contact_href("/book", &card(Some("a/../b"), None, &[])), "/book/a____b.vcf");
}

#[test]
fn the_pane_lists_accounts_by_name_and_tags_below_them() {
    let mut tagged = card(Some("1"), Some("Zoe"), &["z@x"]);
    tagged.categories = strings(&["work", "Alumni"]);
    let mut list = card(Some("2"), Some("Team"), &[]);
    list.kind = Some("group".to_string());
    let mut other = card(Some("3"), Some("Bob"), &[]);
    other.categories = strings(&["work"]);
    let mut accounts = vec![account("b", "beta", vec![record("/1", tagged), record("/2", list)]), account("a", "Alpha", vec![record("/3", other)])];
    accounts[0].deleted.push(card(Some("9"), Some("Gone"), &[]));
    let (choices, rows) = contacts_pane(&accounts);
    assert_eq!(choices.len(), 10);
    assert!(matches!(&rows[0], PaneRow::Header(h) if h == "Alpha"));
    assert!(matches!(&rows[1], PaneRow::Choice(l, 0) if l == "Your Contacts"));
    assert!(matches!(&rows[5], PaneRow::Header(h) if h == "beta"));
    assert!(matches!(&rows[10], PaneRow::Header(h) if h == "Categories"));
    assert!(matches!(&rows[11], PaneRow::Choice(l, 8) if l == "Alumni"));
    assert!(matches!(&choices[9].kind, ContactsBucketKind::Category(n) if n == "work"));
    assert_eq!(choices[9].contacts, vec![Member::Live { account: 1, contact: 0 }, Member::Live { account: 0, contact: 0 }]);
    assert_eq!(choices[6].contacts, vec![Member::Live { account: 0, contact: 1 }]);
    assert_eq!(choices[7].contacts, vec![Member::Deleted { account: 0, card: 0 }]);

    let mut stars = vec![];
    let favourites = &choices[5];
    assert!(contact_entries(&accounts, favourites, &stars).is_empty());
    set_starred(&mut stars, "b", "2", true);
    set_starred(&mut stars, "b", "2", true);
    assert!(is_starred(&stars, "b", "2"));
    let entries = contact_entries(&accounts, favourites, &stars);
    assert_eq!(entries.len(), 1);
    assert_eq!(entries[0].category_label, "Favourites");
    set_starred(&mut stars, "b", "2", false);
    assert!(!is_starred(&stars, "b", "2"));
    let all = contact_entries(&accounts, &choices[4], &stars);
    let names: Vec<&str> = all.iter().map(|e| e.href).collect();
    assert_eq!(names, vec!["/2", "/1"]);
    let gone = contact_entries(&accounts, &choices[7], &stars);
    assert_eq!((gone[0].href, gone[0].etag), ("", None));

    let groups = managed_groups(&accounts);
    assert_eq!(groups.len(), 2);
    assert_eq!(new_contact_account(&accounts), Some(1));
    let books = import_books(&accounts);
    assert_eq!(books[0].label, "Alpha · Main");
    assert_eq!(books[0].account, 1);
}

#[test]
fn the_selected_bucket_stays_within_the_list() {
    assert_eq!(desired_choice(None, 0), None);
    assert_eq!(desired_choice(None, 4), Some(0));
    assert_eq!(desired_choice(Some(-3), 4), Some(0));
    assert_eq!(desired_choice(Some(9), 4), Some(3));
    assert_eq!(desired_choice(Some(2), 4), Some(2));
}

#[test]
fn contacts_that_went_missing_are_noticed_once() {
    let previous = vec![
        record("/1", card(Some("a"), None, &[])),
        record("/2", card(Some("b"), None, &[])),
        record("/3", card(Some("a"), None, &[])),
        record("/4", card(Some("c"), None, &[])),
    ];
    let now = vec![record("/2", card(Some("b"), None, &[]))];
    assert_eq!(newly_deleted(&previous, &now, &vec![]), vec![2, 3]);
    assert_eq!(newly_deleted(&previous, &now, &vec![card(Some("a"), None, &[])]), vec![3]);
}

#[test]
fn imports_update_by_id_skip_by_address_and_create_the_rest() {
    let known = vec![record("/1", card(Some("u1"), None, &["Ada@x"]))];
    match import_command(&known, "/book", Some(card(Some("u1"), Some("New"), &[])), "f".to_string()) {
        Some(ContactCommand::Update { href, etag, card }) => {
            assert_eq!(href, "/1");
            assert_eq!(etag.as_deref(), Some("\"/1\""));
            assert_eq!(card.full_name.as_deref(), Some("New"));
        }
        other => panic!("{other:?}"),
    }
    assert!(import_command(&known, "/book", Some(card(None, None, &[" ada@X "])), "f".to_string()).is_none());
    assert!(import_command(&known, "/book", None, "f".to_string()).is_none());
    match import_command(&known, "/book", Some(card(None, None, &[" ", "b@x"])), "f".to_string()) {
        Some(ContactCommand::Create { book_href, card }) => {
            assert_eq!(book_href, "/book");
            assert_eq!(card.uid.as_deref(), Some("f"));
        }
        other => panic!("{other:?}"),
    }
    let plan = import_contacts(&known, "/book", vec![None, Some(card(Some("u1"), None, &[])), Some(card(None, None, &[])), Some(card(None, None, &[]))]);
    assert_eq!((plan.created, plan.updated, plan.skipped), (2, 1, 1));
    let uids: Vec<String> = plan
        .commands
        .iter()
        .filter_map(|c| match c {
            Some(ContactCommand::Create { card, .. }) => card.uid.clone(),
            _ => None,
        })
        .collect();
    assert_eq!(uids.len(), 2);
    assert_ne!(uids[0], uids[1]);
    assert_eq!(uids[0].len(), 36);
    assert_eq!(import_summary(0, 0, 3, 0), "3 contact(s) already exist - nothing imported");
    assert_eq!(import_summary(1, 2, 3, 1), "Imported 1, updated 2, skipped 3 duplicate(s) (1 failed)");
}

#[test]
fn outcomes_of_writes_are_told() {
    let replies = vec![Some(Ok(())), Some(Err("no".to_string())), None];
    assert_eq!(failed_writes(&replies), 2);
    assert_eq!(batch_summary(&replies, "done"), "1 change(s) couldn't be saved");
    assert_eq!(batch_summary(&vec![Some(Ok(())), None], "done"), "Some changes couldn't be saved");
    assert_eq!(batch_summary(&vec![Some(Ok(()))], "done"), "done");
    assert_eq!(write_report(&Some(Err("no".to_string())), "ok", "Couldn't save").as_deref(), Some("Couldn't save: no"));
    assert_eq!(write_report(&Some(Ok(())), "ok", "x").as_deref(), Some("ok"));
    assert_eq!(write_report(&None, "ok", "x"), None);
    assert!(create_contact("", card(None, None, &[])).is_err());
    assert!(matches!(create_contact("/b", card(None, None, &[])), Ok(ContactCommand::Create { .. })));
    assert_eq!(sync_failure_text(true, "Home", "down").as_deref(), Some("Home: down"));
    assert_eq!(sync_failure_text(false, "Home", "down"), None);
}

#[test]
fn a_session_looks_at_the_server_after_a_write() {
    let s = ContactsSession::start(false);
    assert!(!s.waits());
    let s = s.wake(false);
    assert!(s.resync);
    let s = s.shown().wake(true);
    assert!(s.waits() && !s.resync);
    let delete = ContactCommand::Delete { href: "/1".to_string(), etag: None };
    assert!(!s.carried_out(&delete, false).resync);
    assert!(s.carried_out(&delete, true).resync);
    assert!(s.carried_out(&ContactCommand::Refresh, false).resync);
}

#[test]
fn a_book_is_read_whole_where_the_server_refuses_changes() {
    let (state, action) = begin_book_sync(Some("t1".to_string()));
    assert!(matches!(action, BookAction::AskChanges(Some(t)) if t == "t1"));
    let (state, action) = book_sync_step(state, BookEvent::Failed("stale".to_string()));
    assert!(matches!(action, Some(BookAction::AskAll)));
    let (state, action) = book_sync_step(state, BookEvent::All);
    assert!(matches!(action, Some(BookAction::AskChanges(None))));
    let (state, action) = book_sync_step(state, BookEvent::Failed("refused".to_string()));
    assert!(matches!(action, Some(BookAction::StoreAll(None))));
    let (state, action) = book_sync_step(state, BookEvent::Stored);
    assert_eq!(state, BookSync::Over);
    assert!(matches!(action, Some(BookAction::Done)));

    let (state, _) = begin_book_sync(None);
    let (state, action) = book_sync_step(state, BookEvent::Changes(Some("t2".to_string())));
    assert!(matches!(action, Some(BookAction::StoreChanges(Some(t))) if t == "t2"));
    let (state, action) = book_sync_step(state, BookEvent::Failed("disk".to_string()));
    assert_eq!(state, BookSync::Over);
    assert!(matches!(action, Some(BookAction::Fail(e)) if e == "disk"));
    assert!(book_sync_step(state, BookEvent::All).1.is_none());
}

#[test]
fn books_that_vanished_take_their_cards_with_them() {
    let book = |href: &str| AddressBook { display_name: "B".to_string(), href: href.to_string() };
    let kept = vec![book("/a"), book("/b")];
    let live = vec![book("/b")];
    let stale = stale_books(&kept, &live);
    assert_eq!(stale.len(), 1);
    assert_eq!(stale[0].href, "/a");
    let contacts = vec![
        KeptContact { book_href: "/a".to_string(), href: "/a/1".to_string() },
        KeptContact { book_href: "/b".to_string(), href: "/b/1".to_string() },
    ];
    assert_eq!(cards_of_book(&contacts, "/a"), vec!["/a/1"]);
}

#[test]
fn snapshots_hold_every_address_once() {
    let records = joined_records(vec![
        Some(vec![record("/1", card(None, Some("A"), &["a@x", "b@x"]))]),
        None,
        Some(vec![record("/2", card(None, Some("B"), &["A@X"]))]),
    ]);
    assert_eq!(records.len(), 2);
    let snapshot = account_snapshot("Home", vec![], records);
    assert_eq!(snapshot.suggestions.len(), 2);
    assert!(snapshot_from_cache("Home", Some(vec![]), Some(vec![])).is_none());
    assert!(snapshot_from_cache("Home", None, Some(vec![])).is_none());
    let book = AddressBook { display_name: "B".to_string(), href: "/b".to_string() };
    assert!(snapshot_from_cache("Home", Some(vec![book]), Some(vec![])).is_some());
    assert_eq!(dav_username("", "Home"), "Home");
    assert_eq!(dav_username("me", "Home"), "me");
}

#[test]
fn groups_are_renamed_and_removed_card_by_card() {
    let groups = strings(&["a", "b", "a"]);
    assert_eq!(rename_group(&groups, "a", "c"), vec!["c", "b", "c"]);
    assert_eq!(remove_group(&groups, "a"), vec!["b"]);
    assert_eq!(new_group_name("  c ", "a").as_deref(), Some("c"));
    assert_eq!(new_group_name(" a ", "a"), None);
    assert_eq!(new_group_name("  ", "a"), None);
    assert_eq!(export_body(&vec![]), None);
    assert_eq!(export_body(&strings(&["X", "Y"])).as_deref(), Some("X\r\nY\r\n"));
    assert_eq!(export_summary(2), "Exported 2 contact(s)");
}

#[test]
fn the_editor_keeps_what_it_does_not_show() {
    let mut c = card(Some("u"), Some("Ada"), &["a@x"]);
    c.kind = Some("individual".to_string());
    c.urls = strings(&["https://a"]);
    c.other = vec![("X-A".to_string(), "1".to_string())];
    c.emails[0].types = strings(&["HOME", "pref"]);
    c.birthday = Some(Birthday { date: ymd(1815, 12, 10), omit_year: false });
    c.categories = strings(&["x", "y"]);
    let books = vec![];
    let prefill = ContactEditorPrefill { books: &books, existing: Some(&c), prefill: None, href: "/1", etag: Some("\"e\"") };
    assert!(writable(&prefill) && deletable(&prefill));
    let mut form = open_form(&prefill);
    assert_eq!(form.birthday, "1815-12-10");
    assert_eq!(form.groups, "x, y");
    assert_eq!(form.emails[0].kind, 1);
    form.full_name = " Ada L ".to_string();
    form.groups = "x, , z".to_string();
    form.emails.push(FieldRow { text: "  ".to_string(), kind: 0, origin: None });
    form.emails.push(FieldRow { text: "b@x".to_string(), kind: 2, origin: None });
    form.emails.push(FieldRow { text: "a@x".to_string(), kind: 0, origin: Some(0) });
    let saved = save_card(Some(card(Some("u"), None, &[])), &form).unwrap();
    assert_eq!(saved.full_name.as_deref(), Some("Ada L"));
    assert_eq!(saved.categories, vec!["x", "z"]);
    assert_eq!(saved.emails.len(), 3);
    assert_eq!(saved.emails[0].types, vec!["home"]);
    assert_eq!(saved.emails[1].types, vec!["other"]);
    assert_eq!(saved.emails[2].types, vec!["work"]);
    assert_eq!(saved.uid.as_deref(), Some("u"));
    let again = card_from_form(Some(c), &form, "fresh".to_string()).unwrap();
    assert_eq!(again.urls, vec!["https://a"]);
    assert_eq!(again.emails[0].types, vec!["HOME", "pref"]);
    assert_eq!(again.emails[2].types, vec!["work"]);
    assert_eq!(again.other.len(), 1);
    assert_eq!(again.birthday, Some(Birthday { date: ymd(1815, 12, 10), omit_year: false }));
}

#[test]
fn what_was_not_edited_is_kept_whole() {
    let mut c = card(Some("u"), Some(" Ada "), &["a@x", ""]);
    c.organization = Some(strings(&["Acme", "Engines"]));
    c.emails[0].types = strings(&["INTERNET", "pref"]);
    c.telephones = vec![TelephoneField { types: strings(&["cell", "voice"]), number: " 1 ".to_string() }];
    c.addresses = vec![AddressField {
        types: strings(&["home"]),
        po_box: "7".to_string(),
        extended: String::new(),
        street: "Road 1".to_string(),
        locality: "Town".to_string(),
        region: "North".to_string(),
        postal_code: "123".to_string(),
        country: "Land".to_string(),
        label: Some("label".to_string()),
    }];
    c.birthday = Some(Birthday { date: ymd(1815, 12, 10), omit_year: true });
    c.categories = strings(&["a,b", " c"]);
    let before = format!("{:?}", c);
    let form = form_of_card(&c);
    let saved = card_from_form(Some(c), &form, String::new()).unwrap();
    assert_eq!(format!("{:?}", saved), before);

    let mut form = form_of_card(&saved);
    form.organization = "Acme Ltd".to_string();
    form.addresses[0].city = " City ".to_string();
    form.phones.remove(0);
    let edited = card_from_form(Some(saved), &form, String::new()).unwrap();
    assert_eq!(edited.organization, Some(strings(&["Acme Ltd"])));
    assert_eq!(edited.addresses[0].street, "Road 1");
    assert_eq!(edited.addresses[0].locality, "City");
    assert_eq!(edited.addresses[0].postal_code, "");
    assert_eq!(edited.telephones.len(), 0);
    assert_eq!(edited.emails[0].types, vec!["INTERNET", "pref"]);
    assert_eq!(edited.birthday, Some(Birthday { date: ymd(1815, 12, 10), omit_year: true }));
}

#[test]
fn the_editor_needs_a_name_and_a_birthday_that_can_be_read() {
    let books = vec![("Main".to_string(), "/book".to_string())];
    let prefill = ContactEditorPrefill { books: &books, existing: None, prefill: None, href: "", etag: None };
    assert!(writable(&prefill) && !deletable(&prefill));
    let mut form = open_form(&prefill);
    assert!(save_card(None, &form).is_none());
    form.full_name = "Ada".to_string();
    form.birthday = "soon".to_string();
    assert!(save_card(None, &form).is_none());
    form.birthday = " 02-29 ".to_string();
    let saved = save_card(None, &form).unwrap();
    assert!(saved.birthday.unwrap().omit_year);
    assert_eq!(saved.version, "4.0");
    assert_eq!(saved.uid.as_ref().map(|u| u.len()), Some(36));
    assert!(matches!(save_command(&prefill, saved, 0), Ok(ContactCommand::Create { book_href, .. }) if book_href == "/book"));
    assert!(save_command(&prefill, card(None, None, &[]), 1).is_err());
    assert_eq!(parse_birthday(""), Ok(None));
    assert_eq!(parse_birthday("2000-02-30"), Err(()));
    assert_eq!(parse_birthday("1990-01-02").unwrap().unwrap().date, ymd(1990, 1, 2));
    assert_eq!(field_type_index(&strings(&["Cell"])), 0);
    assert_eq!(field_type_index(&strings(&["Other"])), 2);
}

#[test]
fn a_birthday_without_a_year_is_shown_without_one() {
    let mut c = card(Some("u"), Some("Ada"), &[]);
    c.birthday = Some(Birthday { date: ymd(2000, 3, 4), omit_year: true });
    let books = vec![];
    let prefill = ContactEditorPrefill { books: &books, existing: Some(&c), prefill: None, href: "", etag: None };
    assert!(!writable(&prefill));
    let form = open_form(&prefill);
    assert_eq!(form.birthday, "03-04");
    assert_eq!(parse_birthday(&form.birthday), Ok(c.birthday));
}

#[test]
fn the_picker_keeps_picks_while_searching() {
    let lists = vec![vec![address(Some("zoe"), "z@x"), address(None, "Bob@x")], vec![address(Some("Ada"), "a@x"), address(None, "bob@X")]];
    let contacts = pickable_contacts(&lists);
    let labels: Vec<String> = contacts.iter().map(|c| c.display_label()).collect();
    assert_eq!(labels, vec!["Ada", "Bob@x", "zoe"]);
    assert_eq!(matching_contacts(&contacts, "").len(), 3);
    assert_eq!(matching_contacts(&contacts, "Z@").len(), 1);
    assert_eq!(matching_contacts(&contacts, "nobody").len(), 0);
    assert_eq!(no_match_text(0), "No contacts yet");
    assert_eq!(no_match_text(3), "No contacts found");
    assert!(shows_address(&contacts[0]) && !shows_address(&contacts[1]));
    let mut picked = vec![];
    set_picked(&mut picked, "BOB@x", true);
    set_picked(&mut picked, "a@x", true);
    assert!(is_picked(&picked, "bob@X"));
    set_picked(&mut picked, "A@X", false);
    let out = picked_contacts(&contacts, &picked);
    assert_eq!(out.len(), 1);
    assert_eq!(out[0].address, "Bob@x");
}

#[test]
fn a_birthday_in_the_form_is_read_back() {
    let mut c = card(Some("u"), Some("Ada"), &[]);
    for date in [ymd(1815, 12, 10), ymd(7, 1, 2), ymd(-5, 3, 4), ymd(12345, 11, 30), ymd(2024, 2, 29)] {
        c.birthday = Some(Birthday { date, omit_year: false });
        assert_eq!(parse_birthday(&form_of_card(&c).birthday), Ok(c.birthday));
        c.birthday = Some(Birthday { date, omit_year: true });
        let again = parse_birthday(&form_of_card(&c).birthday).unwrap().unwrap();
        assert!(again.omit_year);
        assert_eq!(again.date, ymd(2000, date.month(), date.day()));
    }
}

#[test]
fn a_sync_keeps_the_cards_that_went_missing() {
    let contacts = |cards: Vec<VCard>| cards.into_iter().map(|c| record("/x", c)).collect::<Vec<_>>();
    let known = account("id", "Work", contacts(vec![card(Some("a"), None, &[]), card(Some("b"), None, &[]), card(Some("c"), None, &[])]));
    let came = account("", "Work", contacts(vec![card(Some("b"), None, &[])])).snapshot;
    let (known, effect) = take_sync(Some(known), "id", "Work", Ok(came), false);
    assert!(matches!(effect, SyncEffect::Refresh));
    let known = known.unwrap();
    assert_eq!(known.account_id, "id");
    assert_eq!(known.snapshot.contacts.len(), 1);
    let uids: Vec<_> = known.deleted.iter().map(|c| c.uid.as_deref()).collect();
    assert_eq!(uids, vec![Some("a"), Some("c")]);

    let came = account("", "Work", contacts(vec![card(Some("a"), None, &[])])).snapshot;
    let known = take_sync(Some(known), "id", "Work", Ok(came), false).0.unwrap();
    let uids: Vec<_> = known.deleted.iter().map(|c| c.uid.as_deref()).collect();
    assert_eq!(uids, vec![Some("a"), Some("c"), Some("b")]);

    let (known, effect) = take_sync(Some(known), "id", "Work", Err("no".to_string()), true);
    assert!(matches!(effect, SyncEffect::Announce(text) if text == "Work: no"));
    assert_eq!(known.as_ref().unwrap().deleted.len(), 3);
    let (known, effect) = take_sync(known, "id", "Work", Err("no".to_string()), false);
    assert!(matches!(effect, SyncEffect::Nothing));
    assert_eq!(known.unwrap().snapshot.contacts.len(), 1);
    let came = account("", "Work", Vec::new()).snapshot;
    let fresh = take_sync(None, "id", "Work", Ok(came), true).0.unwrap();
    assert_eq!((fresh.account_id.as_str(), fresh.deleted.len()), ("id", 0));
}

#[test]
fn every_card_of_a_group_is_put_back() {
    let mut a = card(Some("a"), Some("Ada"), &["a@x"]);
    a.categories = strings(&["old", "kept"]);
    let mut b = card(Some("b"), None, &[]);
    b.categories = strings(&["old"]);
    let mut accounts = vec![account("one", "One", vec![record("/a", a)]), account("two", "Two", vec![record("/b", b)])];
    accounts[0].deleted = vec![card(Some("d"), None, &[])];
    let members = vec![
        Member::Live { account: 0, contact: 0 },
        Member::Deleted { account: 0, card: 0 },
        Member::Live { account: 1, contact: 0 },
    ];
    let groups = |r: &Routed| match &r.command {
        ContactCommand::Update { href, etag, card } => (href.clone(), etag.clone(), card.categories.clone(), card.emails.len()),
        other => panic!("{:?}", other),
    };
    let commands = rename_commands(&accounts, &members, "old", "new");
    assert_eq!(commands.len(), 2);
    assert_eq!(commands[0].account_id, "one");
    assert_eq!(groups(&commands[0]), ("/a".to_string(), Some("\"/a\"".to_string()), strings(&["new", "kept"]), 1));
    assert_eq!(commands[1].account_id, "two");
    assert_eq!(groups(&commands[1]), ("/b".to_string(), Some("\"/b\"".to_string()), strings(&["new"]), 0));
    let commands = remove_commands(&accounts, &members, "old");
    assert_eq!(commands.len(), 2);
    assert_eq!(groups(&commands[0]).2, strings(&["kept"]));
    assert_eq!(groups(&commands[1]).2, strings(&[]));
}
