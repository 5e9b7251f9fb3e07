//! Settings, folders, credentials and starting at login.

use lookout::app_config::{config_path, load_config, AppConfig, FolderRoleOverride, WebcalSubscription};
use lookout::background::{autostart_dir, autostart_file_content, autostart_file_path, enable_login_autostart};
use lookout::background::{handle_token, needs_autostart_file, remove_autostart_file, request_background, request_path};
use lookout::background::{request_portal_autostart, write_autostart_file, AutostartDecision, PortalAnswer, Removal};
use lookout::background::AUTOSTART_FILE_NAME;
use lookout::background_image::{clear, legacy_choice, legacy_path, load, migrate_legacy, save, BackgroundSetting};
use lookout::config_view::{format_size, google_tasks_subtitle, refresh, CacheFile, CacheInfo, CalendarAccountInfo};
use lookout::config_view::{ConfigRow, GoaAccountInfo, MailAccountInfo, WebcalSubscriptionInfo};
use lookout::credentials::{credential, secret_request, AuthMethod, Credential, SecretRequest};
use lookout::folder_tree::{build_folder_roots, build_multi_account_tree_model, inbox_unread, parent_path};
use lookout::folder_tree::{sort_paths, unread_fits, AccountFolders, FolderNode, Mailbox, MailboxRole, TreeItem};
use lookout::model::{EmailAddress, Identity};
use lookout::paths::{join_path, ConfigEnv};

fn env(xdg: &str) -> ConfigEnv {
    ConfigEnv { xdg_config_home: Some(xdg.to_string()), home: None, user_profile: None }
}

#[test]
fn settings_are_taken_as_stored_or_start_empty() {
    let missing = load_config(None);
    assert!(missing.identities.is_empty());
    assert!(missing.folder_role_overrides.is_empty());
    assert!(missing.webcal_subscriptions.is_empty());

    let mut identity = Identity::new("account_1", "Ada", "ada@example.com");
    identity.reply_to = vec![EmailAddress::new("replies@example.com")];
    identity.bcc = vec![EmailAddress::new("archive@example.com")];
    let config = AppConfig {
        identities: vec![identity],
        folder_role_overrides: vec![FolderRoleOverride {
            account_id: "account_1".to_string(),
            mailbox: "account_1:Archive 2024".to_string(),
            role: MailboxRole::Archive,
        }],
        webcal_subscriptions: vec![WebcalSubscription {
            id: "sub-1".to_string(),
            display_name: "Holidays".to_string(),
            url: "https://example.com/holidays.ics".to_string(),
        }],
    };
    let loaded = load_config(Some(config));
    assert_eq!(loaded.identities[0].reply_to[0].address, "replies@example.com");
    assert_eq!(loaded.identities[0].bcc[0].address, "archive@example.com");
    assert_eq!(loaded.folder_role_overrides[0].role, MailboxRole::Archive);
    assert_eq!(loaded.webcal_subscriptions[0].id, "sub-1");
}

#[test]
fn identities_for_account_prepends_the_default_and_drops_duplicates() {
    let config = AppConfig {
        identities: vec![
            Identity::new("account_2", "Other Account", "other@example.com"),
            Identity::new("account_1", "Work", "work@example.com"),
            Identity::new("account_1", "The Account Itself", "ME@example.com"),
        ],
        folder_role_overrides: Vec::new(),
        webcal_subscriptions: Vec::new(),
    };
    let identities = config.identities_for_account("account_1", "My Name", "me@example.com");
    assert_eq!(identities.len(), 2);
    assert_eq!(identities[0].email, "me@example.com");
    assert_eq!(identities[0].name, "My Name");
    assert_eq!(identities[1].email, "work@example.com");
    assert!(config.identities_for("account_2").iter().all(|i| i.email == "other@example.com"));
    assert_eq!(config.identities_for("account_2").len(), 1);
}

#[test]
fn settings_are_kept_in_the_config_directory() {
    assert_eq!(config_path(&env("/cfg/")), "/cfg/lookout/settings.json");
    assert_eq!(legacy_path(&env("")), "lookout/background-image-path");
    assert_eq!(join_path("a", "b"), "a/b");
}

#[test]
fn writes_the_autostart_entry_with_the_hidden_flag() {
    let write = write_autostart_file("/cfg/autostart", 42);
    assert!(write.content.contains("[Desktop Entry]"));
    assert!(write.content.contains("Exec=lookout --hidden"));
    assert!(write.content.contains("X-GNOME-Autostart-enabled=true"));
    assert_eq!(write.path, format!("/cfg/autostart/{AUTOSTART_FILE_NAME}"));
    assert_eq!(write.temp_path, "/cfg/autostart/io.github.gavindi.Lookout.tmp42");
    assert_eq!(write.content, autostart_file_content());
}

#[test]
fn creates_the_autostart_directory() {
    assert_eq!(write_autostart_file("/does-not-exist", 1).dir, "/does-not-exist");
    assert_eq!(autostart_dir("/cfg"), "/cfg/autostart");
    assert_eq!(autostart_file_path("/cfg"), "/cfg/autostart/io.github.gavindi.Lookout.desktop");
}

#[test]
fn removes_the_entry_and_tolerates_absence() {
    assert!(remove_autostart_file(&Removal::Removed).is_ok());
    assert!(remove_autostart_file(&Removal::Absent).is_ok());
    assert_eq!(remove_autostart_file(&Removal::Failed("denied".to_string())).unwrap_err(), "denied");
}

#[test]
fn the_desktop_decides_about_starting_at_login() {
    let answer = |response, autostart| PortalAnswer::Answered { response, autostart };
    assert_eq!(request_portal_autostart(&answer(0, Some(Some(true)))), AutostartDecision::Granted);
    assert_eq!(request_portal_autostart(&answer(0, Some(Some(false)))), AutostartDecision::Denied);
    assert_eq!(request_portal_autostart(&answer(0, Some(None))), AutostartDecision::Denied);
    assert_eq!(request_portal_autostart(&answer(0, None)), AutostartDecision::Denied);
    assert_eq!(request_portal_autostart(&answer(1, Some(Some(true)))), AutostartDecision::Denied);
    assert_eq!(request_portal_autostart(&PortalAnswer::Failed("x".to_string())), AutostartDecision::Unavailable);
    assert_eq!(request_portal_autostart(&PortalAnswer::TimedOut), AutostartDecision::Unavailable);
    assert_eq!(request_background(&answer(2, None)).unwrap_err(), "the portal denied the request (response 2)");
    assert_eq!(request_background(&PortalAnswer::Closed).unwrap_err(), "the portal closed the response stream");
    assert_eq!(request_background(&PortalAnswer::TimedOut).unwrap_err(), "timed out waiting for the portal's answer");
    assert_eq!(request_background(&PortalAnswer::Failed("x".to_string())).unwrap_err(), "x");
    assert!(needs_autostart_file(AutostartDecision::Unavailable));
    assert!(!needs_autostart_file(AutostartDecision::Denied));
    assert!(!enable_login_autostart(AutostartDecision::Denied, true));
    assert!(enable_login_autostart(AutostartDecision::Granted, false));
    assert!(enable_login_autostart(AutostartDecision::Unavailable, true));
    assert!(!enable_login_autostart(AutostartDecision::Unavailable, false));
    let token = handle_token();
    assert!(token.starts_with("lookout_") && token.len() == 40 && !token.contains('-'));
    assert_ne!(token, handle_token());
}

#[test]
fn save_load_clear_round_trip() {
    let mut store = BackgroundSetting { path: String::new() };
    assert_eq!(load(&store, false), None);
    save(&mut store, "/tmp/me.jpg");
    assert_eq!(load(&store, true).as_deref(), Some("/tmp/me.jpg"));
    clear(&mut store);
    assert_eq!(load(&store, true), None);
    assert_eq!(store.path, "");
    assert_eq!(load(&store, false), None);
    save(&mut store, "/tmp/deleted.png");
    assert_eq!(load(&store, false), None);
}

#[test]
fn legacy_file_is_imported_once() {
    let mut store = BackgroundSetting { path: String::new() };
    let text = Some(" /tmp/picked.png\n");
    assert_eq!(legacy_choice(&store, text).as_deref(), Some("/tmp/picked.png"));
    assert!(!migrate_legacy(&mut store, text, false));
    assert_eq!(store.path, "");
    assert!(migrate_legacy(&mut store, text, true));
    assert_eq!(load(&store, true).as_deref(), Some("/tmp/picked.png"));
    save(&mut store, "/tmp/other.png");
    assert!(!migrate_legacy(&mut store, text, true));
    assert_eq!(load(&store, true).as_deref(), Some("/tmp/other.png"));
    assert_eq!(legacy_choice(&store, text), None);
    let empty = BackgroundSetting { path: String::new() };
    assert_eq!(legacy_choice(&empty, None), None);
}

#[test]
fn sizes_are_written_with_one_digit_behind_the_point() {
    assert_eq!(format_size(0), "0 B");
    assert_eq!(format_size(1023), "1023 B");
    assert_eq!(format_size(1024), "1.0 KB");
    assert_eq!(format_size(1536), "1.5 KB");
    assert_eq!(format_size(1024 * 1024 - 1), "1024.0 KB");
    assert_eq!(format_size(5 * 1024 * 1024 + 300_000), "5.3 MB");
    let sizes = [1025u64, 1075, 1076, 1280, 1331, 2099, 1 << 20, 3_333_333, (1 << 30) - 1, 1 << 30, 987_654_321_012];
    let huge = [(1u64 << 53) + 1, (1 << 54) + 2, (1 << 60) + 107_374_182, u64::MAX, u64::MAX - 1025];
    for bytes in sizes.iter().chain(huge.iter()) {
        let b = *bytes as f64;
        let expected = if *bytes < 1024 * 1024 {
            format!("{:.1} KB", b / 1024.0)
        } else if *bytes < 1024 * 1024 * 1024 {
            format!("{:.1} MB", b / (1024.0 * 1024.0))
        } else {
            format!("{:.1} GB", b / (1024.0 * 1024.0 * 1024.0))
        };
        assert_eq!(format_size(*bytes), expected);
    }
    for bytes in (1024u64..1024 * 1024).step_by(13) {
        assert_eq!(format_size(bytes), format!("{:.1} KB", bytes as f64 / 1024.0));
    }
}

#[test]
fn the_settings_screen_lists_accounts_with_their_identities() {
    let cache = |files: Vec<CacheFile>| CacheInfo { dir: "/cache".to_string(), files };
    let empty = refresh(&vec![], &vec![], &vec![], &vec![], &cache(vec![]), &cache(vec![]), &cache(vec![]));
    let says = |rows: &Vec<ConfigRow>, text: &str| rows.len() == 1 && matches!(&rows[0], ConfigRow::Placeholder(t) if t == text);
    assert!(says(&empty.goa, "No GNOME Online Accounts accounts"));
    assert!(says(&empty.mail, "No mail accounts connected"));
    assert!(says(&empty.calendar, "No calendar accounts connected"));
    assert!(says(&empty.webcal, "No webcal subscriptions"));
    assert!(says(&empty.contacts_cache.rows, "No cached files"));
    assert_eq!(empty.mail_cache.title, "Mail cache — /cache");
    assert_eq!(empty.calendar_cache.title, "Calendar cache — /cache");
    assert_eq!(empty.contacts_cache.title, "Contacts cache — /cache");
    let info = |labels: Vec<String>, is_other: bool| MailAccountInfo {
        display_name: "Me".to_string(),
        email: "me@x".to_string(),
        account_id: "a1".to_string(),
        is_other,
        identity_labels: labels,
        imap: "imap.x:993".to_string(),
        smtp: "smtp.x:465".to_string(),
    };
    let goa = GoaAccountInfo {
        display_name: "Me".to_string(),
        email: "me@x".to_string(),
        account_id: "g1".to_string(),
        enabled: false,
    };
    let calendar = CalendarAccountInfo { display_name: "Cal".to_string(), uri: "https://dav".to_string() };
    let webcal = WebcalSubscriptionInfo { display_name: "Days".to_string(), url: "webcal://x".to_string() };
    let file = CacheFile { name: "a.db".to_string(), size: "1.0 KB".to_string() };
    let lists = refresh(
        &vec![goa],
        &vec![info(vec![], false), info(vec!["A".to_string(), "B".to_string()], true)],
        &vec![calendar],
        &vec![webcal],
        &cache(vec![file]),
        &cache(vec![]),
        &cache(vec![]),
    );
    assert!(matches!(&lists.goa[0], ConfigRow::Switch { account_id, active: false, .. } if account_id == "g1"));
    let rows = &lists.mail;
    assert_eq!(rows.len(), 4);
    assert!(matches!(&rows[0], ConfigRow::Account { subtitle, editable: false, .. } if subtitle == "me@x · IMAP imap.x:993 · SMTP smtp.x:465"));
    assert!(matches!(&rows[1], ConfigRow::Identities { subtitle, .. } if subtitle == "Send as this account's own address"));
    assert!(matches!(&rows[2], ConfigRow::Account { account_id, editable: true, .. } if account_id == "a1"));
    assert!(matches!(&rows[3], ConfigRow::Identities { subtitle, .. } if subtitle == "A · B"));
    assert!(matches!(&lists.calendar[0], ConfigRow::Entry { title, subtitle } if title == "Cal" && subtitle == "https://dav"));
    assert!(matches!(&lists.webcal[0], ConfigRow::Entry { title, subtitle } if title == "Days" && subtitle == "webcal://x"));
    assert!(matches!(&lists.mail_cache.rows[0], ConfigRow::Entry { title, subtitle } if title == "a.db" && subtitle == "1.0 KB"));
    assert_eq!(google_tasks_subtitle("id"), "Configured: id");
    assert!(google_tasks_subtitle("").starts_with("Not configured"));
}

#[test]
fn accounts_sign_in_with_a_token_or_a_password() {
    assert_eq!(secret_request(AuthMethod::OAuth2), SecretRequest::AccessToken);
    assert_eq!(secret_request(AuthMethod::Password), SecretRequest::Password);
    assert!(matches!(credential(AuthMethod::OAuth2, Ok(()), Ok("t".to_string())), Ok(Credential::OAuth2AccessToken(t)) if t == "t"));
    assert!(matches!(credential(AuthMethod::Password, Ok(()), Ok("p".to_string())), Ok(Credential::Password(p)) if p == "p"));
    assert_eq!(credential(AuthMethod::Password, Err("a".to_string()), Err("b".to_string())).unwrap_err(), "a");
    assert_eq!(credential(AuthMethod::Password, Ok(()), Err("b".to_string())).unwrap_err(), "b");
}

fn mailbox(path: &str, role: MailboxRole, unread: u32) -> Mailbox {
    Mailbox {
        id: format!("acc:{path}"),
        name: path.rsplit('/').next().unwrap().to_string(),
        role,
        delimiter: '/',
        unread,
    }
}

fn outline(mailboxes: &[Mailbox], nodes: &[FolderNode]) -> Vec<String> {
    nodes
        .iter()
        .flat_map(|n| {
            let name = mailboxes[n.mailbox].name.clone();
            let below: Vec<String> = outline(mailboxes, &n.children).iter().map(|c| format!("{name}>{c}")).collect();
            std::iter::once(name).chain(below).collect::<Vec<String>>()
        })
        .collect()
}

#[test]
fn folders_stand_below_their_parents_with_the_inbox_first() {
    let mut mailboxes = vec![
        mailbox("Work/2024", MailboxRole::Other, 0),
        mailbox("archive", MailboxRole::Archive, 0),
        mailbox("Work", MailboxRole::Other, 0),
        mailbox("INBOX", MailboxRole::Inbox, 7),
        mailbox("Lost/Child", MailboxRole::Other, 0),
        mailbox("Work/Alpha", MailboxRole::Other, 0),
        mailbox("Work", MailboxRole::Other, 3),
    ];
    mailboxes.push(Mailbox { id: "other:Foreign".to_string(), ..mailbox("Foreign", MailboxRole::Other, 0) });
    let roots = build_folder_roots(&mailboxes, "acc");
    assert_eq!(outline(&mailboxes, &roots), vec!["INBOX", "archive", "Child", "Work", "Work>2024", "Work>Alpha"]);
    assert_eq!(roots[3].mailbox, 6);
    assert_eq!(inbox_unread(&mailboxes), 7);
    assert_eq!(inbox_unread(&vec![]), 0);
    assert_eq!(parent_path("a/b/c", '/').as_deref(), Some("a/b"));
    assert_eq!(parent_path("a", '/'), None);
    assert_eq!(sort_paths(&mailboxes, &vec![0, 1, 3]), vec![3, 0, 1]);
}

#[test]
fn the_sidebar_starts_with_all_inboxes() {
    let account = |id: &str, unread: u32| AccountFolders {
        account_id: id.to_string(),
        label: format!("Account {id}"),
        mailboxes: vec![Mailbox { id: format!("{id}:INBOX"), ..mailbox("INBOX", MailboxRole::Inbox, unread) }],
    };
    let accounts = vec![account("a", 2), account("b", 3)];
    assert!(unread_fits(&accounts));
    let favorites = vec![mailbox("Sent", MailboxRole::Sent, 0), mailbox("INBOX", MailboxRole::Inbox, 0)];
    let tree = build_multi_account_tree_model(&accounts, &favorites);
    assert!(matches!(tree.rows[0], TreeItem::Unified(5)));
    assert!(matches!(tree.rows[1], TreeItem::Favorites));
    assert!(matches!(&tree.rows[2], TreeItem::Account(n) if n.unread == 2 && n.label == "Account a"));
    assert_eq!(tree.rows.len(), 4);
    assert_eq!(tree.folders.len(), 2);
    assert_eq!(build_multi_account_tree_model(&accounts, &vec![]).rows.len(), 3);
    assert!(!unread_fits(&vec![account("a", u32::MAX), account("b", 1)]));
}

#[test]
fn starred_mailboxes_are_listed_flat_and_in_order() {
    let folders = |id: &str, names: &[&str]| AccountFolders {
        account_id: id.to_string(),
        label: id.to_string(),
        mailboxes: names.iter().map(|n| Mailbox { id: format!("{id}:{n}"), ..mailbox(n, MailboxRole::Other, 0) }).collect(),
    };
    let accounts = vec![folders("a", &["Work", "Work/Old"]), folders("b", &[])];
    let favorites = vec![mailbox("Work/Old", MailboxRole::Other, 0), mailbox("Work", MailboxRole::Other, 0)];
    let tree = build_multi_account_tree_model(&accounts, &favorites);
    assert!(tree.rows_below(&tree.rows[0]).is_none());
    let starred = tree.rows_below(&tree.rows[1]).unwrap();
    assert_eq!(starred.len(), 2);
    for (i, row) in starred.iter().enumerate() {
        assert!(matches!(row, TreeItem::Favorite(n) if n.mailbox == i && n.children.is_empty()));
        assert!(tree.rows_below(row).is_none());
    }
    let of_a = tree.rows_below(&tree.rows[2]).unwrap();
    assert!(matches!(&of_a[..], [TreeItem::Folder(n)] if n.mailbox == 0));
    let below = tree.rows_below(&of_a[0]).unwrap();
    assert!(matches!(&below[..], [TreeItem::Folder(n)] if n.mailbox == 1));
    assert!(tree.rows_below(&below[0]).is_none());
    assert_eq!(tree.rows_below(&tree.rows[3]).unwrap().len(), 0);
}

#[test]
fn the_desktop_answers_on_an_object_known_beforehand() {
    assert_eq!(
        request_path(":1.42", "lookout_abc"),
        "/org/freedesktop/portal/desktop/request/1_42/lookout_abc"
    );
    assert_eq!(request_path("", "t"), "/org/freedesktop/portal/desktop/request//t");
}
