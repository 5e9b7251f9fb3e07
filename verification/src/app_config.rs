//! The settings file: the identities that mail is sent from, and what else has no place among the
//! plain preferences.

use crate::folder_tree::MailboxRole;
use crate::model::{EmailAddress, Identity};
use crate::paths::{config_file, file_in_config, ConfigEnv};
use crate::pieces::{eq_ignore_ascii_case, same_ignoring_case};
use crate::text::same;
use vstd::prelude::*;

verus! {

/// What the user says a mailbox is for.
#[derive(Debug)]
pub struct FolderRoleOverride {
    pub account_id: String,
    pub mailbox: String,
    pub role: MailboxRole,
}

/// A calendar that is read from an address.
#[derive(Debug)]
pub struct WebcalSubscription {
    pub id: String,
    pub display_name: String,
    pub url: String,
}

/// The settings.
#[derive(Debug)]
pub struct AppConfig {
    pub identities: Vec<Identity>,
    pub folder_role_overrides: Vec<FolderRoleOverride>,
    pub webcal_subscriptions: Vec<WebcalSubscription>,
}

impl Default for AppConfig {
    fn default() -> (r: AppConfig)
        ensures
            r.identities@.len() == 0,
            r.folder_role_overrides@.len() == 0,
            r.webcal_subscriptions@.len() == 0,
    {
        AppConfig {
            identities: Vec::new(),
            folder_role_overrides: Vec::new(),
            webcal_subscriptions: Vec::new(),
        }
    }
}

/// An identity as text.
pub struct IdentityView {
    pub account_id: Seq<char>,
    pub name: Seq<char>,
    pub email: Seq<char>,
    pub reply_to: Seq<EmailAddress>,
    pub bcc: Seq<EmailAddress>,
}

/// An identity as text.
pub open spec fn identity_view(i: Identity) -> IdentityView {
    IdentityView {
        account_id: i.account_id@,
        name: i.name@,
        email: i.email@,
        reply_to: i.reply_to@,
        bcc: i.bcc@,
    }
}

/// Identities as text.
pub open spec fn identity_views(v: Seq<Identity>) -> Seq<IdentityView> {
    v.map_values(|i: Identity| identity_view(i))
}

/// Picks the identities of an account.
pub open spec fn of_account(account_id: Seq<char>) -> spec_fn(IdentityView) -> bool {
    |i: IdentityView| i.account_id == account_id
}

/// Picks the identities with another address.
pub open spec fn with_other_email(email: Seq<char>) -> spec_fn(IdentityView) -> bool {
    |i: IdentityView| !same_ignoring_case(i.email, email)
}

/// The identity that an account has by itself.
pub open spec fn own_identity(account_id: Seq<char>, name: Seq<char>, email: Seq<char>) -> IdentityView {
    IdentityView { account_id, name, email, reply_to: Seq::empty(), bcc: Seq::empty() }
}

impl AppConfig {
    /// The identities that were made for an account.
    pub fn identities_for(&self, account_id: &str) -> (r: Vec<Identity>)
        ensures
            identity_views(r@) == identity_views(self.identities@).filter(of_account(account_id@)),
    {
        let ghost all = identity_views(self.identities@);
        let ghost keep = of_account(account_id@);
        let mut out: Vec<Identity> = Vec::new();
        let mut i: usize = 0;
        assert(all.take(0).filter(keep) =~= Seq::<IdentityView>::empty());
        assert(identity_views(out@) =~= all.take(0).filter(keep));
        while i < self.identities.len()
            invariant
                i <= self.identities.len(),
                all == identity_views(self.identities@),
                keep == of_account(account_id@),
                identity_views(out@) == all.take(i as int).filter(keep),
            decreases self.identities.len() - i,
        {
            let ghost before = identity_views(out@);
            proof {
                assert(all.take(i + 1) =~= all.take(i as int).push(all[i as int]));
                all.take(i as int).lemma_filter_push(all[i as int], keep);
            }
            if same(&self.identities[i].account_id, account_id) {
                let identity = self.identities[i].clone();
                out.push(identity);
                assert(identity_views(out@) =~= before.push(identity_view(identity)));
            }
            i += 1;
        }
        assert(all.take(i as int) =~= all);
        out
    }

    /// Every identity that mail of an account can be sent from: first the account's own, then those
    /// that were made for it and have another address.
    pub fn identities_for_account(&self, account_id: &str, default_name: &str, default_email: &str) -> (r:
        Vec<Identity>)
        ensures
            identity_views(r@) == seq![own_identity(account_id@, default_name@, default_email@)]
                + identity_views(self.identities@).filter(of_account(account_id@)).filter(
                with_other_email(default_email@),
            ),
    {
        let own = Identity::new(account_id, default_name, default_email);
        let made = self.identities_for(account_id);
        let ghost all = identity_views(made@);
        let ghost keep = with_other_email(default_email@);
        let ghost first = identity_view(own);
        let mut out: Vec<Identity> = Vec::new();
        out.push(own);
        let mut i: usize = 0;
        proof {
            assert(first.reply_to =~= Seq::<EmailAddress>::empty());
            assert(first.bcc =~= Seq::<EmailAddress>::empty());
            assert(all.take(0).filter(keep) =~= Seq::<IdentityView>::empty());
            assert(identity_views(out@) =~= seq![first] + all.take(0).filter(keep));
        }
        while i < made.len()
            invariant
                i <= made.len(),
                all == identity_views(made@),
                keep == with_other_email(default_email@),
                identity_views(out@) == seq![first] + all.take(i as int).filter(keep),
            decreases made.len() - i,
        {
            let ghost before = identity_views(out@);
            proof {
                assert(all.take(i + 1) =~= all.take(i as int).push(all[i as int]));
                all.take(i as int).lemma_filter_push(all[i as int], keep);
            }
            if !eq_ignore_ascii_case(&made[i].email, default_email) {
                let identity = made[i].clone();
                out.push(identity);
                assert(identity_views(out@) =~= before.push(identity_view(identity)));
                assert(identity_views(out@) =~= seq![first] + all.take(i as int).filter(keep).push(
                    all[i as int],
                ));
            }
            i += 1;
        }
        assert(all.take(i as int) =~= all);
        out
    }
}

/// The identities of an account belong to it, and its own address occurs only once: first.
pub proof fn lemma_own_address_once(
    identities: Seq<IdentityView>,
    account_id: Seq<char>,
    name: Seq<char>,
    email: Seq<char>,
    i: int,
)
    requires
        0 <= i < (seq![own_identity(account_id, name, email)] + identities.filter(
            of_account(account_id),
        ).filter(with_other_email(email))).len(),
    ensures
        ({
            let all = seq![own_identity(account_id, name, email)] + identities.filter(
                of_account(account_id),
            ).filter(with_other_email(email));
            all[i].account_id == account_id && (same_ignoring_case(all[i].email, email) <==> i == 0)
        }),
{
    let made = identities.filter(of_account(account_id));
    let kept = made.filter(with_other_email(email));
    if i > 0 {
        made.lemma_filter_pred(with_other_email(email), i - 1);
        assert(kept.contains(kept[i - 1]));
        made.lemma_filter_contains_rev(with_other_email(email), kept[i - 1]);
        let k = choose|k: int| 0 <= k < made.len() && made[k] == kept[i - 1];
        identities.lemma_filter_pred(of_account(account_id), k);
    }
}

/// Where the settings are kept.
pub fn config_path(env: &ConfigEnv) -> (r: String)
    ensures
        r@ == config_file(*env, "settings.json"@),
{
    file_in_config(env, "settings.json")
}

/// The settings that were read; without any that can be read, none.
pub fn load_config(read: Option<AppConfig>) -> (r: AppConfig)
    ensures
        match read {
            Some(config) => r == config,
            None => r.identities@.len() == 0 && r.folder_role_overrides@.len() == 0
                && r.webcal_subscriptions@.len() == 0,
        },
{
    match read {
        Some(config) => config,
        None => AppConfig::default(),
    }
}

} // verus!
