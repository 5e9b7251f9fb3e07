//! What holds of settings and of the rows that show them.

use crate::app_config::{of_account, own_identity, with_other_email, IdentityView};
use crate::background::{decision_of, path_element, portal_error, AutostartDecision, PortalAnswer};
use crate::background_image::{loaded, old_choice};
use crate::config_view::{account_rows, mail_rows_upto, precision, rounded, rows_of, rows_of_mail};
use crate::config_view::{row_views, shows_cache, significant, size_text, CacheGroup, CacheInfo, CacheFile};
use crate::config_view::{CalendarAccountInfo, ConfigRowView, GoaAccountInfo, MailAccountInfo};
use crate::config_view::WebcalSubscriptionInfo;
use crate::model::texts_of;
use crate::paths::{below, config_file, config_home, ConfigEnv};
use crate::pieces::{joined, same_ignoring_case};
use crate::text::{decimal, has_prefix, trimmed};
use vstd::prelude::*;

verus! {

proof fn lemma_mail_rows_at(mail: Seq<MailAccountInfo>, n: int, i: int)
    requires
        0 <= n <= mail.len(),
    ensures
        mail_rows_upto(mail, n).len() == 2 * n,
        0 <= i < n ==> mail_rows_upto(mail, n)[2 * i] == account_rows(mail[i])[0],
        0 <= i < n ==> mail_rows_upto(mail, n)[2 * i + 1] == account_rows(mail[i])[1],
    decreases n,
{
    if n > 0 {
        lemma_mail_rows_at(mail, n - 1, i);
    }
}

/// Each mail account has two rows: one with its name, address and servers, which can be edited if it
/// is no online account, and below it the one with what it can send as.
pub proof fn lemma_account_listed(mail: Seq<MailAccountInfo>, i: int)
    requires
        0 <= i < mail.len(),
    ensures
        rows_of_mail(mail).len() == 2 * mail.len(),
        rows_of_mail(mail)[2 * i] matches ConfigRowView::Account(title, subtitle, id, editable) && title
            == mail[i].display_name@ && subtitle == mail[i].email@ + " · IMAP "@ + mail[i].imap@ + " · SMTP "@
            + mail[i].smtp@ && id == mail[i].account_id@ && editable == mail[i].is_other,
        rows_of_mail(mail)[2 * i + 1] matches ConfigRowView::Identities(subtitle, id) && id == mail[i].account_id@ && (
        mail[i].identity_labels@.len() == 1 ==> subtitle == mail[i].identity_labels@[0]@) && (
        mail[i].identity_labels@.len() == 2 ==> subtitle == mail[i].identity_labels@[0]@ + " · "@
            + mail[i].identity_labels@[1]@) && (mail[i].identity_labels@.len() == 0 ==> subtitle
            == "Send as this account's own address"@),
{
    lemma_mail_rows_at(mail, mail.len() as int, i);
    let labels = texts_of(mail[i].identity_labels@);
    reveal_with_fuel(joined, 3);
    if labels.len() == 2 {
        assert(labels.drop_last()[0] == labels[0]);
    }
}

/// Every entry of a list has a row, in the order of the list; an empty list says so.
pub proof fn lemma_entries_listed(
    goa: Seq<GoaAccountInfo>,
    calendar: Seq<CalendarAccountInfo>,
    webcal: Seq<WebcalSubscriptionInfo>,
    files: Seq<CacheFile>,
    placeholder: Seq<char>,
    i: int,
)
    ensures
        goa.len() > 0 ==> rows_of(goa, placeholder).len() == goa.len(),
        0 <= i < goa.len() ==> rows_of(goa, placeholder)[i] == ConfigRowView::Switch(
            goa[i].display_name@,
            goa[i].email@,
            goa[i].account_id@,
            goa[i].enabled,
        ),
        calendar.len() > 0 ==> rows_of(calendar, placeholder).len() == calendar.len(),
        0 <= i < calendar.len() ==> rows_of(calendar, placeholder)[i] == ConfigRowView::Entry(
            calendar[i].display_name@,
            calendar[i].uri@,
        ),
        webcal.len() > 0 ==> rows_of(webcal, placeholder).len() == webcal.len(),
        0 <= i < webcal.len() ==> rows_of(webcal, placeholder)[i] == ConfigRowView::Entry(
            webcal[i].display_name@,
            webcal[i].url@,
        ),
        files.len() > 0 ==> rows_of(files, placeholder).len() == files.len(),
        0 <= i < files.len() ==> rows_of(files, placeholder)[i] == ConfigRowView::Entry(files[i].name@, files[i].size@),
        goa.len() == 0 ==> rows_of(goa, placeholder) == seq![ConfigRowView::Placeholder(placeholder)],
        files.len() == 0 ==> rows_of(files, placeholder) == seq![ConfigRowView::Placeholder(placeholder)],
{
}

/// Rounding leads to the nearest whole number.
pub proof fn lemma_rounded_is_near(n: int, d: int)
    requires
        d > 0,
        n >= 0,
    ensures
        -d <= 2 * (n - rounded(n, d) * d) <= d,
        rounded(n, d) >= 0,
{
    let q = n / d;
    let r = n % d;
    assert(n == q * d + r && 0 <= r < d) by (nonlinear_arith)
        requires
            q == n / d,
            r == n % d,
            d > 0,
    ;
    assert((q + 1) * d == q * d + d) by (nonlinear_arith);
    assert(q >= 0) by (nonlinear_arith)
        requires
            q == n / d,
            n >= 0,
            d > 0,
    ;
}

/// A size is told in the largest unit that it is not smaller than, to the nearest tenth.
pub proof fn lemma_size_told(bytes: int)
    requires
        0 <= bytes < 0x20_0000_0000_0000,
    ensures
        bytes < 1024 ==> size_text(bytes) == decimal(bytes as nat) + " B"@,
        1024 <= bytes < 1048576 ==> exists|t: nat|
            size_text(bytes) == decimal(t / 10) + "."@ + #[trigger] decimal(t % 10) + " KB"@ && -1024 <= 2 * (10 * bytes - t
                * 1024) <= 1024,
        1048576 <= bytes < 1073741824 ==> exists|t: nat|
            size_text(bytes) == decimal(t / 10) + "."@ + #[trigger] decimal(t % 10) + " MB"@ && -1048576 <= 2 * (10 * bytes
                - t * 1048576) <= 1048576,
        1073741824 <= bytes ==> exists|t: nat|
            size_text(bytes) == decimal(t / 10) + "."@ + #[trigger] decimal(t % 10) + " GB"@ && -1073741824 <= 2 * (10
                * bytes - t * 1073741824) <= 1073741824,
{
    assert(significant(bytes) == bytes);
    lemma_rounded_is_near(10 * bytes, 1024);
    lemma_rounded_is_near(10 * bytes, 1048576);
    lemma_rounded_is_near(10 * bytes, 1073741824);
    if bytes < 1024 {
    } else if bytes < 1048576 {
        let t = rounded(10 * bytes, 1024) as nat;
        assert(size_text(bytes) == decimal(t / 10) + "."@ + decimal(t % 10) + " KB"@);
    } else if bytes < 1073741824 {
        let t = rounded(10 * bytes, 1048576) as nat;
        assert(size_text(bytes) == decimal(t / 10) + "."@ + decimal(t % 10) + " MB"@);
    } else {
        let t = rounded(10 * bytes, 1073741824) as nat;
        assert(size_text(bytes) == decimal(t / 10) + "."@ + decimal(t % 10) + " GB"@);
    }
}

/// What is kept of a large size are its first 53 binary digits.
pub proof fn lemma_large_size(bytes: int)
    requires
        0 <= bytes < 0x1_0000_0000_0000_0000,
    ensures
        bytes < precision(bytes) * 0x20_0000_0000_0000,
        precision(bytes) > 1 ==> bytes >= precision(bytes) * 0x10_0000_0000_0000,
        -precision(bytes) <= 2 * (bytes - significant(bytes)) <= precision(bytes),
{
    lemma_rounded_is_near(bytes, precision(bytes));
}

/// An account can send as itself and as each of its identities with another address.
pub proof fn lemma_identity_offered(
    identities: Seq<IdentityView>,
    account_id: Seq<char>,
    name: Seq<char>,
    email: Seq<char>,
    i: IdentityView,
)
    ensures
        identities.filter(of_account(account_id)).contains(i) <==> identities.contains(i) && i.account_id == account_id,
        identities.filter(of_account(account_id)).filter(with_other_email(email)).contains(i) <==> identities.contains(i)
            && i.account_id == account_id && !same_ignoring_case(i.email, email),
        own_identity(account_id, name, email).name == name,
        own_identity(account_id, name, email).email == email,
        own_identity(account_id, name, email).account_id == account_id,
        own_identity(account_id, name, email).reply_to.len() == 0,
        own_identity(account_id, name, email).bcc.len() == 0,
{
    let made = identities.filter(of_account(account_id));
    lemma_kept(identities, of_account(account_id), i);
    lemma_kept(made, with_other_email(email), i);
}

proof fn lemma_kept<T>(s: Seq<T>, p: spec_fn(T) -> bool, t: T)
    ensures
        s.filter(p).contains(t) <==> s.contains(t) && p(t),
{
    let kept = s.filter(p);
    if kept.contains(t) {
        s.lemma_filter_contains_rev(p, t);
        let k = choose|k: int| 0 <= k < kept.len() && kept[k] == t;
        s.lemma_filter_pred(p, k);
    }
    if s.contains(t) && p(t) {
        let k = choose|k: int| 0 <= k < s.len() && s[k] == t;
        s.lemma_filter_contains(p, k);
    }
}

/// A path below a directory is the directory, one slash and the part.
pub proof fn lemma_path_below(dir: Seq<char>, part: Seq<char>)
    requires
        dir.len() > 0,
    ensures
        dir.last() != '/' ==> below(dir, part) == dir + seq!['/'] + part,
        dir.last() == '/' ==> below(dir, part) == dir + part,
        has_prefix(below(dir, part), dir),
{
    assert(dir.push('/') =~= dir + seq!['/']);
    assert(below(dir, part).take(dir.len() as int) =~= dir);
}

/// Where settings are kept: where the desktop says, or else below the home directory, or else below the
/// user's profile.
pub proof fn lemma_settings_kept(env: ConfigEnv, name: Seq<char>)
    ensures
        env.xdg_config_home is Some ==> config_home(env) == (env.xdg_config_home->0)@,
        env.xdg_config_home is None && env.home is Some ==> config_home(env) == below((env.home->0)@, ".config"@),
        env.xdg_config_home is None && env.home is None && env.user_profile is Some ==> config_home(env) == below(
            (env.user_profile->0)@,
            ".config"@,
        ),
        env.xdg_config_home is None && env.home is None && env.user_profile is None ==> config_home(env) == below(
            Seq::empty(),
            ".config"@,
        ),
        config_file(env, name) == below(below(config_home(env), "lookout"@), name),
{
}

/// A name on the bus becomes a part of a path without its first colon, and with underscores for dots.
pub proof fn lemma_bus_name_in_path(name: Seq<char>, i: int)
    requires
        0 <= i < name.len(),
    ensures
        path_element(":"@ + name).len() == name.len(),
        name[i] == '.' ==> path_element(":"@ + name)[i] == '_',
        name[i] != '.' ==> path_element(":"@ + name)[i] == name[i],
        name[0] != ':' ==> path_element(name) == path_element(":"@ + name),
{
    reveal_strlit(":");
    let full = ":"@ + name;
    assert(full.take(1) =~= ":"@);
    assert(full.skip(1) =~= name);
    if name[0] != ':' {
        assert(name.take(1)[0] != ":"@[0]);
    }
}

/// Starting at login is granted exactly if the portal says so in a successful answer; it is denied by
/// every other answer, and undecided where there is none.
pub proof fn lemma_login_decided(answer: PortalAnswer)
    ensures
        decision_of(answer) == AutostartDecision::Granted <==> answer == (PortalAnswer::Answered {
            response: 0,
            autostart: Some(Some(true)),
        }),
        decision_of(answer) == AutostartDecision::Unavailable <==> !(answer is Answered),
        portal_error(answer) is None <==> answer is Answered && answer->response == 0,
        answer is Failed ==> portal_error(answer) == Some((answer->Failed_0)@),
{
}

/// A choice of an image is taken over from an earlier file only where none has been made since, and it
/// is shown only while the image is there.
pub proof fn lemma_choice_of_image(path: Seq<char>, text: Seq<char>)
    ensures
        loaded(path, true) is Some <==> path.len() > 0,
        loaded(path, true) is Some ==> loaded(path, true) == Some(path),
        loaded(path, false) is None,
        old_choice(Seq::empty(), Some(text)) == Some(trimmed(text)),
        old_choice(path, None) is None,
{
}

/// The files of a cache are listed under the name of the cache and its directory.
pub proof fn lemma_cache_shown(g: CacheGroup, name: Seq<char>, cache: CacheInfo, i: int)
    requires
        shows_cache(g, name, cache),
    ensures
        has_prefix(g.title@, name + " cache"@),
        g.title@.len() >= cache.dir@.len() && g.title@.skip(g.title@.len() - cache.dir@.len()) == cache.dir@,
        cache.files@.len() > 0 ==> g.rows@.len() == cache.files@.len(),
        0 <= i < cache.files@.len() ==> g.rows@[i]@ == ConfigRowView::Entry(
            cache.files@[i].name@,
            cache.files@[i].size@,
        ),
        cache.files@.len() == 0 ==> g.rows@.len() == 1 && g.rows@[0]@ is Placeholder,
{
    reveal_strlit(" cache");
    reveal_strlit(" cache — ");
    let head = name + " cache"@;
    assert(g.title@.take(head.len() as int) =~= head);
    assert(g.title@.skip(g.title@.len() - cache.dir@.len()) =~= cache.dir@);
    let views = row_views(g.rows@);
    assert(views.len() == g.rows@.len());
    if 0 <= i < cache.files@.len() {
        assert(views[i] == g.rows@[i]@);
    }
    if cache.files@.len() == 0 {
        assert(views[0] == g.rows@[0]@);
    }
}

} // verus!
