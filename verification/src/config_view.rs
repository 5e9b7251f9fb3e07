//! The settings screen: what its rows say.

use crate::model::texts_of;
use crate::pieces::{join, joined};
use crate::text::{decimal, decimal_text};
use vstd::prelude::*;

verus! {

/// A mail account as the screen shows it.
#[derive(Debug)]
pub struct MailAccountInfo {
    pub display_name: String,
    pub email: String,
    pub account_id: String,
    pub is_other: bool,
    pub identity_labels: Vec<String>,
    pub imap: String,
    pub smtp: String,
}

/// An online account, which can be switched on and off.
#[derive(Debug)]
pub struct GoaAccountInfo {
    pub display_name: String,
    pub email: String,
    pub account_id: String,
    pub enabled: bool,
}

/// A calendar account.
#[derive(Debug)]
pub struct CalendarAccountInfo {
    pub display_name: String,
    pub uri: String,
}

/// A subscribed calendar.
#[derive(Debug)]
pub struct WebcalSubscriptionInfo {
    pub display_name: String,
    pub url: String,
}

/// A file of a cache.
#[derive(Debug)]
pub struct CacheFile {
    pub name: String,
    pub size: String,
}

/// A row of a list of accounts or files. Rows that can be acted on carry the account's id.
#[derive(Debug)]
pub enum ConfigRow {
    /// Nothing can be listed.
    Placeholder(String),
    /// A title and a line below it.
    Entry { title: String, subtitle: String },
    /// An account with a switch.
    Switch { title: String, subtitle: String, account_id: String, active: bool },
    /// A mail account, which can be edited and removed if the program manages it itself.
    Account { title: String, subtitle: String, account_id: String, editable: bool },
    /// The identities of the mail account above.
    Identities { subtitle: String, account_id: String },
}

/// A row as text.
pub enum ConfigRowView {
    Placeholder(Seq<char>),
    Entry(Seq<char>, Seq<char>),
    Switch(Seq<char>, Seq<char>, Seq<char>, bool),
    Account(Seq<char>, Seq<char>, Seq<char>, bool),
    Identities(Seq<char>, Seq<char>),
}

impl View for ConfigRow {
    type V = ConfigRowView;

    open spec fn view(&self) -> ConfigRowView {
        match self {
            ConfigRow::Placeholder(s) => ConfigRowView::Placeholder(s@),
            ConfigRow::Entry { title, subtitle } => ConfigRowView::Entry(title@, subtitle@),
            ConfigRow::Switch { title, subtitle, account_id, active } => ConfigRowView::Switch(
                title@,
                subtitle@,
                account_id@,
                *active,
            ),
            ConfigRow::Account { title, subtitle, account_id, editable } => ConfigRowView::Account(
                title@,
                subtitle@,
                account_id@,
                *editable,
            ),
            ConfigRow::Identities { subtitle, account_id } => ConfigRowView::Identities(
                subtitle@,
                account_id@,
            ),
        }
    }
}

/// Rows as text.
pub open spec fn row_views(v: Seq<ConfigRow>) -> Seq<ConfigRowView> {
    v.map_values(|r: ConfigRow| r@)
}

/// What is said of the identities of an account.
pub open spec fn identities_text(labels: Seq<String>) -> Seq<char> {
    if labels.len() == 0 {
        "Send as this account's own address"@
    } else {
        joined(texts_of(labels), " · "@)
    }
}

/// The two rows of a mail account.
pub open spec fn account_rows(info: MailAccountInfo) -> Seq<ConfigRowView> {
    seq![
        ConfigRowView::Account(
            info.display_name@,
            info.email@ + " · IMAP "@ + info.imap@ + " · SMTP "@ + info.smtp@,
            info.account_id@,
            info.is_other,
        ),
        ConfigRowView::Identities(identities_text(info.identity_labels@), info.account_id@),
    ]
}

/// The rows of the first `n` mail accounts.
pub open spec fn mail_rows_upto(mail: Seq<MailAccountInfo>, n: int) -> Seq<ConfigRowView>
    decreases n,
{
    if n <= 0 {
        Seq::empty()
    } else {
        mail_rows_upto(mail, n - 1) + account_rows(mail[n - 1])
    }
}

/// The rows of the mail accounts, as text.
pub open spec fn rows_of_mail(mail: Seq<MailAccountInfo>) -> Seq<ConfigRowView> {
    if mail.len() == 0 {
        seq![ConfigRowView::Placeholder("No mail accounts connected"@)]
    } else {
        mail_rows_upto(mail, mail.len() as int)
    }
}

/// The rows of the mail accounts.
pub fn mail_rows(mail: &Vec<MailAccountInfo>) -> (r: Vec<ConfigRow>)
    ensures
        row_views(r@) == rows_of_mail(mail@),
{
    let mut out: Vec<ConfigRow> = Vec::new();
    if mail.is_empty() {
        out.push(ConfigRow::Placeholder("No mail accounts connected".to_owned()));
        assert(row_views(out@) =~= seq![ConfigRowView::Placeholder("No mail accounts connected"@)]);
        return out;
    }
    let mut i: usize = 0;
    assert(row_views(out@) =~= mail_rows_upto(mail@, 0));
    while i < mail.len()
        invariant
            i <= mail.len(),
            row_views(out@) == mail_rows_upto(mail@, i as int),
        decreases mail.len() - i,
    {
        let info = &mail[i];
        let ghost before = row_views(out@);
        let mut subtitle = info.email.clone();
        subtitle.push_str(" · IMAP ");
        subtitle.push_str(&info.imap);
        subtitle.push_str(" · SMTP ");
        subtitle.push_str(&info.smtp);
        out.push(
            ConfigRow::Account {
                title: info.display_name.clone(),
                subtitle,
                account_id: info.account_id.clone(),
                editable: info.is_other,
            },
        );
        let subtitle = if info.identity_labels.is_empty() {
            "Send as this account's own address".to_owned()
        } else {
            join(&info.identity_labels, " · ")
        };
        out.push(ConfigRow::Identities { subtitle, account_id: info.account_id.clone() });
        assert(row_views(out@) =~= before + account_rows(mail@[i as int]));
        i += 1;
    }
    out
}

/// What a list has one row for.
pub trait Listed: Sized {
    /// The row, as text.
    spec fn row_view(&self) -> ConfigRowView;

    /// The row.
    fn row(&self) -> (r: ConfigRow)
        ensures
            r@ == self.row_view(),
    ;
}

impl Listed for GoaAccountInfo {
    open spec fn row_view(&self) -> ConfigRowView {
        ConfigRowView::Switch(self.display_name@, self.email@, self.account_id@, self.enabled)
    }

    fn row(&self) -> (r: ConfigRow) {
        ConfigRow::Switch {
            title: self.display_name.clone(),
            subtitle: self.email.clone(),
            account_id: self.account_id.clone(),
            active: self.enabled,
        }
    }
}

impl Listed for CalendarAccountInfo {
    open spec fn row_view(&self) -> ConfigRowView {
        ConfigRowView::Entry(self.display_name@, self.uri@)
    }

    fn row(&self) -> (r: ConfigRow) {
        ConfigRow::Entry { title: self.display_name.clone(), subtitle: self.uri.clone() }
    }
}

impl Listed for WebcalSubscriptionInfo {
    open spec fn row_view(&self) -> ConfigRowView {
        ConfigRowView::Entry(self.display_name@, self.url@)
    }

    fn row(&self) -> (r: ConfigRow) {
        ConfigRow::Entry { title: self.display_name.clone(), subtitle: self.url.clone() }
    }
}

impl Listed for CacheFile {
    open spec fn row_view(&self) -> ConfigRowView {
        ConfigRowView::Entry(self.name@, self.size@)
    }

    fn row(&self) -> (r: ConfigRow) {
        ConfigRow::Entry { title: self.name.clone(), subtitle: self.size.clone() }
    }
}

/// The rows of a list, as text: one for each entry, or a placeholder.
pub open spec fn rows_of<T: Listed>(entries: Seq<T>, placeholder: Seq<char>) -> Seq<ConfigRowView> {
    if entries.len() == 0 {
        seq![ConfigRowView::Placeholder(placeholder)]
    } else {
        entries.map_values(|e: T| e.row_view())
    }
}

/// The rows of a list: one for each entry, or a placeholder.
pub fn listed_rows<T: Listed>(entries: &Vec<T>, placeholder: &str) -> (r: Vec<ConfigRow>)
    ensures
        row_views(r@) == rows_of(entries@, placeholder@),
{
    let mut out: Vec<ConfigRow> = Vec::new();
    if entries.is_empty() {
        out.push(ConfigRow::Placeholder(placeholder.to_owned()));
        assert(row_views(out@) =~= seq![ConfigRowView::Placeholder(placeholder@)]);
        return out;
    }
    let ghost want = rows_of(entries@, placeholder@);
    let mut i: usize = 0;
    assert(row_views(out@) =~= want.take(0));
    while i < entries.len()
        invariant
            i <= entries.len(),
            entries@.len() > 0,
            want == rows_of(entries@, placeholder@),
            row_views(out@) == want.take(i as int),
        decreases entries.len() - i,
    {
        let ghost before = row_views(out@);
        let row = entries[i].row();
        assert(row@ == want[i as int]);
        out.push(row);
        assert(row_views(out@) =~= before.push(row@));
        assert(want.take(i + 1) =~= want.take(i as int).push(want[i as int]));
        i += 1;
    }
    assert(want.take(i as int) =~= want);
    out
}

/// The title above the files of a cache.
pub fn cache_title(name: &str, dir: &str) -> (r: String)
    ensures
        r@ == name@ + " cache — "@ + dir@,
{
    let mut out = name.to_owned();
    out.push_str(" cache — ");
    out.push_str(dir);
    out
}

/// A cache: where it is, and its files.
#[derive(Debug)]
pub struct CacheInfo {
    pub dir: String,
    pub files: Vec<CacheFile>,
}

/// The files of a cache under a title.
#[derive(Debug)]
pub struct CacheGroup {
    pub title: String,
    pub rows: Vec<ConfigRow>,
}

/// A group shows a cache.
pub open spec fn shows_cache(g: CacheGroup, name: Seq<char>, cache: CacheInfo) -> bool {
    &&& g.title@ == name + " cache — "@ + cache.dir@
    &&& row_views(g.rows@) == rows_of(cache.files@, "No cached files"@)
}

fn cache_group(name: &str, cache: &CacheInfo) -> (r: CacheGroup)
    ensures
        shows_cache(r, name@, *cache),
{
    CacheGroup {
        title: cache_title(name, &cache.dir),
        rows: listed_rows(&cache.files, "No cached files"),
    }
}

/// The lists of the settings.
#[derive(Debug)]
pub struct ConfigLists {
    pub goa: Vec<ConfigRow>,
    pub mail: Vec<ConfigRow>,
    pub calendar: Vec<ConfigRow>,
    pub webcal: Vec<ConfigRow>,
    pub mail_cache: CacheGroup,
    pub calendar_cache: CacheGroup,
    pub contacts_cache: CacheGroup,
}

/// Makes the lists of the settings anew.
pub fn refresh(
    goa: &Vec<GoaAccountInfo>,
    mail: &Vec<MailAccountInfo>,
    calendar: &Vec<CalendarAccountInfo>,
    webcal: &Vec<WebcalSubscriptionInfo>,
    mail_cache: &CacheInfo,
    calendar_cache: &CacheInfo,
    contacts_cache: &CacheInfo,
) -> (r: ConfigLists)
    ensures
        row_views(r.goa@) == rows_of(goa@, "No GNOME Online Accounts accounts"@),
        row_views(r.mail@) == rows_of_mail(mail@),
        row_views(r.calendar@) == rows_of(calendar@, "No calendar accounts connected"@),
        row_views(r.webcal@) == rows_of(webcal@, "No webcal subscriptions"@),
        shows_cache(r.mail_cache, "Mail"@, *mail_cache),
        shows_cache(r.calendar_cache, "Calendar"@, *calendar_cache),
        shows_cache(r.contacts_cache, "Contacts"@, *contacts_cache),
{
    ConfigLists {
        goa: listed_rows(goa, "No GNOME Online Accounts accounts"),
        mail: mail_rows(mail),
        calendar: listed_rows(calendar, "No calendar accounts connected"),
        webcal: listed_rows(webcal, "No webcal subscriptions"),
        mail_cache: cache_group("Mail", mail_cache),
        calendar_cache: cache_group("Calendar", calendar_cache),
        contacts_cache: cache_group("Contacts", contacts_cache),
    }
}

/// What is said of the client for Google's tasks.
pub fn google_tasks_subtitle(id: &str) -> (r: String)
    ensures
        r@ == (if id@.len() == 0 {
            "Not configured - needed to connect Google Tasks; register a Desktop OAuth client in Google Cloud"@
        } else {
            "Configured: "@ + id@
        }),
{
    if id.is_empty() {
        "Not configured - needed to connect Google Tasks; register a Desktop OAuth client in Google Cloud".to_owned()
    } else {
        let mut out = "Configured: ".to_owned();
        out.push_str(id);
        out
    }
}

/// A quotient rounded to the nearest whole number, and to the even one of two that are equally near.
pub open spec fn rounded(n: int, d: int) -> int {
    if 2 * (n % d) < d || (2 * (n % d) == d && (n / d) % 2 == 0) {
        n / d
    } else {
        n / d + 1
    }
}

fn round_quotient(n: u128, d: u128) -> (r: u128)
    requires
        0 < d <= 0x4000_0000,
        n <= 0x100_0000_0000_0000_0000,
    ensures
        r == rounded(n as int, d as int),
        r <= n / d + 1,
{
    let q: u128 = n / d;
    let rest: u128 = n % d;
    if 2 * rest < d || (2 * rest == d && q % 2 == 0) {
        q
    } else {
        q + 1
    }
}

/// The steps in which a number with 53 significant bits can be held.
pub open spec fn precision(bytes: int) -> int {
    if bytes < 0x20_0000_0000_0000 {
        1
    } else if bytes < 0x40_0000_0000_0000 {
        2
    } else if bytes < 0x80_0000_0000_0000 {
        4
    } else if bytes < 0x100_0000_0000_0000 {
        8
    } else if bytes < 0x200_0000_0000_0000 {
        16
    } else if bytes < 0x400_0000_0000_0000 {
        32
    } else if bytes < 0x800_0000_0000_0000 {
        64
    } else if bytes < 0x1000_0000_0000_0000 {
        128
    } else if bytes < 0x2000_0000_0000_0000 {
        256
    } else if bytes < 0x4000_0000_0000_0000 {
        512
    } else if bytes < 0x8000_0000_0000_0000 {
        1024
    } else {
        2048
    }
}

/// A number held with 53 significant bits.
pub open spec fn significant(bytes: int) -> int {
    rounded(bytes, precision(bytes)) * precision(bytes)
}

fn significant_of(bytes: u64) -> (r: u128)
    ensures
        r == significant(bytes as int),
        r <= 0x1_0000_0000_0000_1000,
{
    let step: u128 = if bytes < 0x20_0000_0000_0000 {
        1
    } else if bytes < 0x40_0000_0000_0000 {
        2
    } else if bytes < 0x80_0000_0000_0000 {
        4
    } else if bytes < 0x100_0000_0000_0000 {
        8
    } else if bytes < 0x200_0000_0000_0000 {
        16
    } else if bytes < 0x400_0000_0000_0000 {
        32
    } else if bytes < 0x800_0000_0000_0000 {
        64
    } else if bytes < 0x1000_0000_0000_0000 {
        128
    } else if bytes < 0x2000_0000_0000_0000 {
        256
    } else if bytes < 0x4000_0000_0000_0000 {
        512
    } else if bytes < 0x8000_0000_0000_0000 {
        1024
    } else {
        2048
    };
    let q: u128 = round_quotient(bytes as u128, step);
    assert(q * step <= bytes + step) by (nonlinear_arith)
        requires
            q <= bytes as int / step as int + 1,
            1 <= step <= 2048,
    ;
    q * step
}

/// Tenths with one digit behind the point, and a unit.
pub open spec fn tenths_text(tenths: nat, unit: Seq<char>) -> Seq<char> {
    decimal(tenths / 10) + "."@ + decimal(tenths % 10) + unit
}

/// The size of a file in bytes, or in thousands, millions or billions of them by powers of two, with
/// one digit behind the point.
pub open spec fn size_text(bytes: int) -> Seq<char> {
    if bytes < 0x400 {
        decimal(bytes as nat) + " B"@
    } else if bytes < 0x10_0000 {
        tenths_text(rounded(10 * significant(bytes), 0x400) as nat, " KB"@)
    } else if bytes < 0x4000_0000 {
        tenths_text(rounded(10 * significant(bytes), 0x10_0000) as nat, " MB"@)
    } else {
        tenths_text(rounded(10 * significant(bytes), 0x4000_0000) as nat, " GB"@)
    }
}

/// The size of a file.
pub fn format_size(bytes: u64) -> (r: String)
    ensures
        r@ == size_text(bytes as int),
{
    if bytes < 0x400 {
        let mut out = decimal_text(bytes);
        out.push_str(" B");
        return out;
    }
    let (divisor, unit): (u128, &'static str) = if bytes < 0x10_0000 {
        (0x400, " KB")
    } else if bytes < 0x4000_0000 {
        (0x10_0000, " MB")
    } else {
        (0x4000_0000, " GB")
    };
    let ten: u128 = 10 * significant_of(bytes);
    let tenths: u128 = round_quotient(ten, divisor);
    assert(tenths <= u64::MAX) by (nonlinear_arith)
        requires
            tenths <= ten / divisor + 1,
            ten <= 10 * 0x1_0000_0000_0000_1000,
            divisor >= 0x400,
    ;
    let mut out = decimal_text((tenths / 10) as u64);
    out.push_str(".");
    out.push_str(&decimal_text((tenths % 10) as u64));
    out.push_str(unit);
    out
}

} // verus!
