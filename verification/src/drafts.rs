//! Sending mail and saving it as a draft while it is being written.

use crate::editor_content::{clone_bytes, clone_images, image_views, EditorContent, ImageView, InlineImage};
use crate::model::{addresses, clone_strings, text_of, texts_of, EmailAddress, Identity};
use crate::pieces::{address_entries, addresses_of};
use crate::text::{blank, is_blank, same, trim, trimmed};
use vstd::prelude::*;

verus! {

/// The entries of a recipient field. A comma within double quotes belongs to a name.
pub fn parse_recipients(field: &str) -> (r: Vec<String>)
    ensures
        texts_of(r@) == addresses_of(field@),
{
    address_entries(field)
}

/// A file that is attached to the message being written.
#[derive(Debug)]
pub struct PendingAttachment {
    pub filename: String,
    pub content_type: String,
    /// Tells apart the times that files were picked: a file that is picked again is another
    /// attachment, whatever it holds.
    pub pick: u64,
    pub bytes: Vec<u8>,
}

/// What tells attachments apart.
pub struct AttachmentKey {
    pub filename: Seq<char>,
    pub content_type: Seq<char>,
    pub pick: u64,
}

impl PendingAttachment {
    /// What tells the attachment apart from others.
    pub open spec fn key(self) -> AttachmentKey {
        AttachmentKey { filename: self.filename@, content_type: self.content_type@, pick: self.pick }
    }

    /// Whether two attachments come from the same pick of the same file.
    pub fn eq(&self, other: &PendingAttachment) -> (r: bool)
        ensures
            r == (self.key() == other.key()),
    {
        same(&self.filename, &other.filename) && same(&self.content_type, &other.content_type) && self.pick
            == other.pick
    }

    /// The attachment as it goes into a message.
    pub fn to_mail_attachment(&self) -> (r: Attachment)
        ensures
            r@ == self.mailed(),
    {
        Attachment {
            filename: self.filename.clone(),
            content_type: self.content_type.clone(),
            bytes: clone_bytes(&self.bytes),
        }
    }

    /// The attachment as it goes into a message.
    pub open spec fn mailed(self) -> AttachmentView {
        AttachmentView {
            filename: self.filename@,
            content_type: self.content_type@,
            bytes: self.bytes@,
        }
    }
}

impl Clone for PendingAttachment {
    fn clone(&self) -> (r: Self)
        ensures
            r.key() == self.key(),
            r.mailed() == self.mailed(),
    {
        PendingAttachment {
            filename: self.filename.clone(),
            content_type: self.content_type.clone(),
            pick: self.pick,
            bytes: clone_bytes(&self.bytes),
        }
    }
}

/// A file in a message.
#[derive(Debug)]
pub struct Attachment {
    pub filename: String,
    pub content_type: String,
    pub bytes: Vec<u8>,
}

/// A file in a message, as text and bytes.
pub struct AttachmentView {
    pub filename: Seq<char>,
    pub content_type: Seq<char>,
    pub bytes: Seq<u8>,
}

impl View for Attachment {
    type V = AttachmentView;

    open spec fn view(&self) -> AttachmentView {
        AttachmentView {
            filename: self.filename@,
            content_type: self.content_type@,
            bytes: self.bytes@,
        }
    }
}

/// What the composer holds at one moment.
#[derive(Debug)]
pub struct DraftSnapshot {
    pub from: String,
    pub to: String,
    pub cc: String,
    pub bcc: String,
    pub subject: String,
    pub rich: bool,
    pub read_receipt: bool,
    /// The HTML of a rich-text message, the text of a plain one.
    pub body: String,
    pub body_text: String,
    pub attachments: Vec<PendingAttachment>,
    pub inline_images: Vec<InlineImage>,
}

/// What tells apart two states of the composer.
pub struct DraftView {
    pub from: Seq<char>,
    pub to: Seq<char>,
    pub cc: Seq<char>,
    pub bcc: Seq<char>,
    pub subject: Seq<char>,
    pub rich: bool,
    pub read_receipt: bool,
    pub body: Seq<char>,
    pub body_text: Seq<char>,
    pub attachments: Seq<AttachmentKey>,
    pub inline_images: Seq<ImageView>,
}

/// What tells attachments apart.
pub open spec fn keys_of(v: Seq<PendingAttachment>) -> Seq<AttachmentKey> {
    v.map_values(|a: PendingAttachment| a.key())
}

/// Attachments as they go into a message.
pub open spec fn mailed_of(v: Seq<PendingAttachment>) -> Seq<AttachmentView> {
    v.map_values(|a: PendingAttachment| a.mailed())
}

/// Attachments of a message as text and bytes.
pub open spec fn attachment_views(v: Seq<Attachment>) -> Seq<AttachmentView> {
    v.map_values(|a: Attachment| a@)
}

impl View for DraftSnapshot {
    type V = DraftView;

    open spec fn view(&self) -> DraftView {
        DraftView {
            from: self.from@,
            to: self.to@,
            cc: self.cc@,
            bcc: self.bcc@,
            subject: self.subject@,
            rich: self.rich,
            read_receipt: self.read_receipt,
            body: self.body@,
            body_text: self.body_text@,
            attachments: keys_of(self.attachments@),
            inline_images: image_views(self.inline_images@),
        }
    }
}

fn clone_attachments(v: &Vec<PendingAttachment>) -> (r: Vec<PendingAttachment>)
    ensures
        keys_of(r@) == keys_of(v@),
        mailed_of(r@) == mailed_of(v@),
{
    let mut out: Vec<PendingAttachment> = Vec::new();
    let mut i: usize = 0;
    while i < v.len()
        invariant
            i <= v.len(),
            keys_of(out@) == keys_of(v@).take(i as int),
            mailed_of(out@) == mailed_of(v@).take(i as int),
        decreases v.len() - i,
    {
        let ghost keys = keys_of(out@);
        let ghost mailed = mailed_of(out@);
        let a = v[i].clone();
        out.push(a);
        assert(keys_of(out@) =~= keys.push(a.key()));
        assert(mailed_of(out@) =~= mailed.push(a.mailed()));
        assert(keys_of(v@).take(i + 1) =~= keys_of(v@).take(i as int).push(a.key()));
        assert(mailed_of(v@).take(i + 1) =~= mailed_of(v@).take(i as int).push(a.mailed()));
        i += 1;
    }
    assert(keys_of(v@).take(i as int) =~= keys_of(v@));
    assert(mailed_of(v@).take(i as int) =~= mailed_of(v@));
    out
}

impl Clone for DraftSnapshot {
    fn clone(&self) -> (r: Self)
        ensures
            r@ == self@,
            mailed_of(r.attachments@) == mailed_of(self.attachments@),
    {
        DraftSnapshot {
            from: self.from.clone(),
            to: self.to.clone(),
            cc: self.cc.clone(),
            bcc: self.bcc.clone(),
            subject: self.subject.clone(),
            rich: self.rich,
            read_receipt: self.read_receipt,
            body: self.body.clone(),
            body_text: self.body_text.clone(),
            attachments: clone_attachments(&self.attachments),
            inline_images: clone_images(&self.inline_images),
        }
    }
}

fn same_attachments(a: &Vec<PendingAttachment>, b: &Vec<PendingAttachment>) -> (r: bool)
    ensures
        r == (keys_of(a@) == keys_of(b@)),
{
    if a.len() != b.len() {
        assert(keys_of(a@).len() != keys_of(b@).len());
        return false;
    }
    let mut i: usize = 0;
    while i < a.len()
        invariant
            i <= a.len(),
            a.len() == b.len(),
            forall|k: int| 0 <= k < i ==> (#[trigger] a@[k]).key() == b@[k].key(),
        decreases a.len() - i,
    {
        if !a[i].eq(&b[i]) {
            assert(keys_of(a@)[i as int] != keys_of(b@)[i as int]);
            return false;
        }
        i += 1;
    }
    assert(keys_of(a@) =~= keys_of(b@));
    true
}

fn same_bytes(a: &Vec<u8>, b: &Vec<u8>) -> (r: bool)
    ensures
        r == (a@ == b@),
{
    if a.len() != b.len() {
        return false;
    }
    let mut i: usize = 0;
    while i < a.len()
        invariant
            i <= a.len(),
            a.len() == b.len(),
            forall|k: int| 0 <= k < i ==> a@[k] == b@[k],
        decreases a.len() - i,
    {
        if a[i] != b[i] {
            return false;
        }
        i += 1;
    }
    assert(a@ =~= b@);
    true
}

fn same_images(a: &Vec<InlineImage>, b: &Vec<InlineImage>) -> (r: bool)
    ensures
        r == (image_views(a@) == image_views(b@)),
{
    if a.len() != b.len() {
        assert(image_views(a@).len() != image_views(b@).len());
        return false;
    }
    let mut i: usize = 0;
    while i < a.len()
        invariant
            i <= a.len(),
            a.len() == b.len(),
            forall|k: int| 0 <= k < i ==> (#[trigger] a@[k])@ == b@[k]@,
        decreases a.len() - i,
    {
        if !(same(&a[i].cid, &b[i].cid) && same(&a[i].content_type, &b[i].content_type) && same_bytes(
            &a[i].bytes,
            &b[i].bytes,
        )) {
            assert(image_views(a@)[i as int] != image_views(b@)[i as int]);
            return false;
        }
        i += 1;
    }
    assert(image_views(a@) =~= image_views(b@));
    true
}

impl DraftSnapshot {
    /// Whether two states of the composer are the same.
    pub fn same_as(&self, other: &DraftSnapshot) -> (r: bool)
        ensures
            r == (self@ == other@),
    {
        same(&self.from, &other.from) && same(&self.to, &other.to) && same(&self.cc, &other.cc) && same(
            &self.bcc,
            &other.bcc,
        ) && same(&self.subject, &other.subject) && self.rich == other.rich && self.read_receipt
            == other.read_receipt && same(&self.body, &other.body) && same(&self.body_text, &other.body_text)
            && same_attachments(&self.attachments, &other.attachments) && same_images(
            &self.inline_images,
            &other.inline_images,
        )
    }
}

/// A draft that is not worth saving: blank fields, a blank text, and nothing attached.
pub open spec fn trivial(snap: DraftView) -> bool {
    &&& blank(snap.to)
    &&& blank(snap.cc)
    &&& blank(snap.bcc)
    &&& blank(snap.subject)
    &&& blank(snap.body_text)
    &&& snap.attachments.len() == 0
    &&& snap.inline_images.len() == 0
}

/// Whether a draft is not worth saving.
pub fn draft_is_trivial(snap: &DraftSnapshot) -> (r: bool)
    ensures
        r == trivial(snap@),
{
    is_blank(&snap.to) && is_blank(&snap.cc) && is_blank(&snap.bcc) && is_blank(&snap.subject) && is_blank(
        &snap.body_text,
    ) && snap.attachments.is_empty() && snap.inline_images.is_empty()
}

/// The identity that is selected, or else the first one, or else a blank one.
pub fn selected_identity(identities: &Vec<Identity>, selected: usize) -> (r: Identity)
    ensures
        ({
            let k = if selected < identities@.len() {
                selected as int
            } else {
                0
            };
            if identities@.len() == 0 {
                r.name@.len() == 0 && r.email@.len() == 0 && r.account_id@.len() == 0 && r.reply_to@.len()
                    == 0 && r.bcc@.len() == 0
            } else {
                r.account_id == identities@[k].account_id && r.name == identities@[k].name && r.email
                    == identities@[k].email && r.reply_to@ == identities@[k].reply_to@ && r.bcc@
                    == identities@[k].bcc@
            }
        }),
{
    if selected < identities.len() {
        identities[selected].clone()
    } else if identities.len() > 0 {
        identities[0].clone()
    } else {
        proof {
            reveal_strlit("");
        }
        Identity::new("", "", "")
    }
}

/// Which identity is selected once the list of identities has changed to `count` of them: the same
/// place in the list, or the first one if there is no such place any more.
pub fn kept_selection(selected: usize, count: usize) -> (r: usize)
    ensures
        r == if count > 0 && selected >= count {
            0
        } else {
            selected
        },
{
    if count > 0 && selected >= count {
        0
    } else {
        selected
    }
}

/// A message that is ready to be saved or sent.
#[derive(Debug)]
pub struct ComposedMessage {
    pub from: String,
    pub display_name: Option<String>,
    pub to: Vec<String>,
    pub cc: Vec<String>,
    pub bcc: Vec<String>,
    pub reply_to: Vec<String>,
    pub subject: String,
    pub text_body: String,
    pub html_body: Option<String>,
    pub attachments: Vec<Attachment>,
    pub inline_images: Vec<InlineImage>,
    pub request_read_receipt: bool,
    pub in_reply_to: Option<String>,
    pub references: Vec<String>,
    pub message_id: Option<String>,
}

/// A message as text.
pub struct MessageView {
    pub from: Seq<char>,
    pub display_name: Option<Seq<char>>,
    pub to: Seq<Seq<char>>,
    pub cc: Seq<Seq<char>>,
    pub bcc: Seq<Seq<char>>,
    pub reply_to: Seq<Seq<char>>,
    pub subject: Seq<char>,
    pub text_body: Seq<char>,
    pub html_body: Option<Seq<char>>,
    pub attachments: Seq<AttachmentView>,
    pub inline_images: Seq<ImageView>,
    pub request_read_receipt: bool,
    pub in_reply_to: Option<Seq<char>>,
    pub references: Seq<Seq<char>>,
    pub message_id: Option<Seq<char>>,
}

impl View for ComposedMessage {
    type V = MessageView;

    open spec fn view(&self) -> MessageView {
        MessageView {
            from: self.from@,
            display_name: text_of(self.display_name),
            to: texts_of(self.to@),
            cc: texts_of(self.cc@),
            bcc: texts_of(self.bcc@),
            reply_to: texts_of(self.reply_to@),
            subject: self.subject@,
            text_body: self.text_body@,
            html_body: text_of(self.html_body),
            attachments: attachment_views(self.attachments@),
            inline_images: image_views(self.inline_images@),
            request_read_receipt: self.request_read_receipt,
            in_reply_to: text_of(self.in_reply_to),
            references: texts_of(self.references@),
            message_id: text_of(self.message_id),
        }
    }
}

/// The name that an identity shows, unless it is blank.
pub open spec fn shown_name(identity: Identity) -> Option<Seq<char>> {
    if blank(identity.name@) {
        None
    } else {
        Some(identity.name@)
    }
}

fn identity_name(identity: &Identity) -> (r: Option<String>)
    ensures
        text_of(r) == shown_name(*identity),
{
    if is_blank(&identity.name) {
        None
    } else {
        Some(identity.name.clone())
    }
}

/// Appends the bare addresses of a list.
fn push_addresses(out: &mut Vec<String>, list: &Vec<EmailAddress>)
    ensures
        texts_of(final(out)@) == texts_of(old(out)@) + addresses(list@),
{
    let ghost start = texts_of(out@);
    let mut i: usize = 0;
    assert(texts_of(out@) =~= start + addresses(list@).take(0));
    while i < list.len()
        invariant
            i <= list.len(),
            texts_of(out@) == start + addresses(list@).take(i as int),
        decreases list.len() - i,
    {
        let ghost before = texts_of(out@);
        let a = list[i].address.clone();
        out.push(a);
        assert(texts_of(out@) =~= before.push(a@));
        assert(addresses(list@).take(i + 1) =~= addresses(list@).take(i as int).push(a@));
        assert(texts_of(out@) =~= start + addresses(list@).take(i + 1));
        i += 1;
    }
    assert(addresses(list@).take(i as int) =~= addresses(list@));
}

fn mail_attachments(v: &Vec<PendingAttachment>) -> (r: Vec<Attachment>)
    ensures
        attachment_views(r@) == mailed_of(v@),
{
    let mut out: Vec<Attachment> = Vec::new();
    let mut i: usize = 0;
    while i < v.len()
        invariant
            i <= v.len(),
            attachment_views(out@) == mailed_of(v@).take(i as int),
        decreases v.len() - i,
    {
        let ghost before = attachment_views(out@);
        let a = v[i].to_mail_attachment();
        out.push(a);
        assert(attachment_views(out@) =~= before.push(a@));
        assert(mailed_of(v@).take(i + 1) =~= mailed_of(v@).take(i as int).push(a@));
        i += 1;
    }
    assert(mailed_of(v@).take(i as int) =~= mailed_of(v@));
    out
}

/// The message that a draft is saved as.
pub open spec fn draft_of(
    snap: DraftSnapshot,
    identity: Identity,
    in_reply_to: Option<Seq<char>>,
    references: Seq<Seq<char>>,
    message_id: Seq<char>,
) -> MessageView {
    MessageView {
        from: identity.email@,
        display_name: shown_name(identity),
        to: addresses_of(snap.to@),
        cc: addresses_of(snap.cc@),
        bcc: addresses_of(snap.bcc@) + addresses(identity.bcc@),
        reply_to: addresses(identity.reply_to@),
        subject: snap.subject@,
        text_body: snap.body_text@,
        html_body: if snap.rich {
            Some(snap.body@)
        } else {
            None
        },
        attachments: mailed_of(snap.attachments@),
        inline_images: image_views(snap.inline_images@),
        request_read_receipt: snap.read_receipt,
        in_reply_to,
        references,
        message_id: Some(message_id),
    }
}

fn draft_message(
    snap: &DraftSnapshot,
    identity: &Identity,
    in_reply_to: &Option<String>,
    references: &Vec<String>,
    message_id: &str,
) -> (r: ComposedMessage)
    ensures
        r@ == draft_of(*snap, *identity, text_of(*in_reply_to), texts_of(references@), message_id@),
{
    let mut bcc = parse_recipients(&snap.bcc);
    push_addresses(&mut bcc, &identity.bcc);
    let mut reply_to: Vec<String> = Vec::new();
    push_addresses(&mut reply_to, &identity.reply_to);
    assert(texts_of(reply_to@) =~= addresses(identity.reply_to@));
    ComposedMessage {
        from: identity.email.clone(),
        display_name: identity_name(identity),
        to: parse_recipients(&snap.to),
        cc: parse_recipients(&snap.cc),
        bcc,
        reply_to,
        subject: snap.subject.clone(),
        text_body: snap.body_text.clone(),
        html_body: if snap.rich {
            Some(snap.body.clone())
        } else {
            None
        },
        attachments: mail_attachments(&snap.attachments),
        inline_images: clone_images(&snap.inline_images),
        request_read_receipt: snap.read_receipt,
        in_reply_to: in_reply_to.clone(),
        references: clone_strings(references),
        message_id: Some(message_id.to_owned()),
    }
}

/// A request to save a draft.
#[derive(Debug)]
pub struct SaveDraft {
    pub msg: ComposedMessage,
    /// Whether the draft takes the place of one that was saved before.
    pub replace: bool,
}

/// What has been saved of the message being written.
#[derive(Debug)]
pub struct Autosave {
    /// The id of every draft of the message.
    pub message_id: String,
    /// What was saved last.
    pub last_saved: Option<DraftSnapshot>,
    /// Whether anything was ever saved.
    pub draft_queued: bool,
    /// Whether a save is going on.
    pub in_flight: bool,
}

/// What has been saved, as text.
pub struct AutosaveView {
    pub message_id: Seq<char>,
    pub last_saved: Option<DraftView>,
    pub draft_queued: bool,
    pub in_flight: bool,
}

impl View for Autosave {
    type V = AutosaveView;

    open spec fn view(&self) -> AutosaveView {
        AutosaveView {
            message_id: self.message_id@,
            last_saved: match self.last_saved {
                Some(s) => Some(s@),
                None => None,
            },
            draft_queued: self.draft_queued,
            in_flight: self.in_flight,
        }
    }
}

impl AutosaveView {
    /// Nothing has been saved yet.
    pub open spec fn fresh(message_id: Seq<char>) -> AutosaveView {
        AutosaveView { message_id, last_saved: None, draft_queued: false, in_flight: false }
    }

    /// A save is started, unless one is going on.
    pub open spec fn begun(self) -> AutosaveView {
        AutosaveView { in_flight: true, ..self }
    }

    /// The composer's state is saved: it could be read, it is worth saving, and it is not what was
    /// saved last.
    pub open spec fn saves(self, snap: Option<DraftView>) -> bool {
        snap matches Some(s) && !trivial(s) && self.last_saved != Some(s)
    }

    /// What has been saved once the save is over.
    pub open spec fn ended(self, snap: Option<DraftView>) -> AutosaveView {
        if self.saves(snap) {
            AutosaveView { last_saved: snap, draft_queued: true, in_flight: false, ..self }
        } else {
            AutosaveView { in_flight: false, ..self }
        }
    }

    /// What has been saved after one save after the other.
    pub open spec fn after(self, snaps: Seq<Option<DraftView>>) -> AutosaveView
        decreases snaps.len(),
    {
        if snaps.len() == 0 {
            self
        } else {
            self.after(snaps.drop_last()).begun().ended(snaps.last())
        }
    }
}

impl Autosave {
    /// Nothing has been saved yet.
    pub fn new(message_id: String) -> (r: Autosave)
        ensures
            r@ == AutosaveView::fresh(message_id@),
    {
        Autosave { message_id, last_saved: None, draft_queued: false, in_flight: false }
    }

    /// Starts a save. Says whether it may go on: not while another one does.
    pub fn attempt(&mut self) -> (r: bool)
        ensures
            final(self)@ == old(self)@.begun(),
            r == !old(self)@.in_flight,
    {
        let free = !self.in_flight;
        self.in_flight = true;
        free
    }

    /// Ends a save with the state that was read from the composer, if any could be: gives the
    /// request to save it if it is worth saving and differs from what was saved last.
    pub fn save_if_changed(
        &mut self,
        snapshot: Option<DraftSnapshot>,
        identity: &Identity,
        in_reply_to: &Option<String>,
        references: &Vec<String>,
    ) -> (r: Option<SaveDraft>)
        ensures
            ({
                let view = match snapshot {
                    Some(s) => Some(s@),
                    None => None,
                };
                &&& final(self)@ == old(self)@.ended(view)
                &&& match r {
                    Some(save) => {
                        &&& old(self)@.saves(view)
                        &&& save.replace == old(self)@.draft_queued
                        &&& save.msg@ == draft_of(
                            snapshot->0,
                            *identity,
                            text_of(*in_reply_to),
                            texts_of(references@),
                            old(self)@.message_id,
                        )
                    },
                    None => !old(self)@.saves(view),
                }
            }),
    {
        self.in_flight = false;
        let snap = match snapshot {
            Some(s) => s,
            None => return None,
        };
        if draft_is_trivial(&snap) {
            return None;
        }
        let unchanged = match &self.last_saved {
            Some(last) => last.same_as(&snap),
            None => false,
        };
        if unchanged {
            return None;
        }
        let replace = self.draft_queued;
        let msg = draft_message(&snap, identity, in_reply_to, references, &self.message_id);
        self.last_saved = Some(snap);
        self.draft_queued = true;
        Some(SaveDraft { msg, replace })
    }
}

/// Two saves never go on at once: once one has been started, no other may go on until it is over.
pub proof fn lemma_one_save_at_a_time(state: AutosaveView)
    ensures
        state.begun().in_flight,
        state.begun().begun() == state.begun(),
{
}

/// What was just saved is not saved again.
pub proof fn lemma_unchanged_draft_not_saved(state: AutosaveView, snap: DraftView)
    ensures
        !state.ended(Some(snap)).saves(Some(snap)),
{
}

/// All drafts of a message carry the same id, whatever was saved before.
pub proof fn lemma_one_id_per_message(
    state: AutosaveView,
    snaps: Seq<Option<DraftView>>,
    snap: DraftSnapshot,
    identity: Identity,
    in_reply_to: Option<Seq<char>>,
    references: Seq<Seq<char>>,
)
    ensures
        state.after(snaps).message_id == state.message_id,
        draft_of(snap, identity, in_reply_to, references, state.after(snaps).message_id).message_id == Some(
            state.message_id,
        ),
    decreases snaps.len(),
{
    if snaps.len() > 0 {
        lemma_one_id_per_message(state, snaps.drop_last(), snap, identity, in_reply_to, references);
    }
}

/// A draft takes the place of an earlier one exactly if one was saved before: the first is new.
pub proof fn lemma_only_first_save_is_new(message_id: Seq<char>, snaps: Seq<Option<DraftView>>)
    ensures
        AutosaveView::fresh(message_id).after(snaps).draft_queued <==> exists|i: int|
            0 <= i < snaps.len() && AutosaveView::fresh(message_id).after(#[trigger] snaps.take(i)).saves(
                snaps[i],
            ),
    decreases snaps.len(),
{
    let fresh = AutosaveView::fresh(message_id);
    if snaps.len() > 0 {
        let n = snaps.len() - 1;
        let rest = snaps.drop_last();
        lemma_only_first_save_is_new(message_id, rest);
        assert(snaps.take(n) =~= rest);
        if exists|i: int| 0 <= i < rest.len() && fresh.after(#[trigger] rest.take(i)).saves(rest[i]) {
            let i = choose|i: int| 0 <= i < rest.len() && fresh.after(#[trigger] rest.take(i)).saves(rest[i]);
            assert(snaps.take(i) =~= rest.take(i));
            assert(fresh.after(snaps.take(i)).saves(snaps[i]));
        }
        if exists|i: int| 0 <= i < snaps.len() && fresh.after(#[trigger] snaps.take(i)).saves(snaps[i]) {
            let i = choose|i: int| 0 <= i < snaps.len() && fresh.after(#[trigger] snaps.take(i)).saves(snaps[i]);
            if i < n {
                assert(snaps.take(i) =~= rest.take(i));
                assert(fresh.after(rest.take(i)).saves(rest[i]));
            }
        }
        if fresh.after(rest).saves(snaps[n]) {
            assert(fresh.after(snaps.take(n)).saves(snaps[n]));
        }
    }
}

/// An untouched composer is never saved.
pub proof fn lemma_trivial_draft_never_saved(state: AutosaveView, snap: DraftView)
    requires
        trivial(snap),
    ensures
        !state.saves(Some(snap)),
        state.ended(Some(snap)).last_saved == state.last_saved,
        state.ended(Some(snap)).draft_queued == state.draft_queued,
{
}

/// The body of a message that is sent.
#[derive(Debug)]
pub struct OutgoingBody {
    pub text: String,
    pub html: Option<String>,
    pub images: Vec<InlineImage>,
}

/// The body that is sent. A plain message is sent as it is. A rich one is sent with its text and its
/// HTML, unless it holds neither text nor images. If the editor could not be read, the text that the
/// composer opened with is sent.
pub fn outgoing_body(rich: bool, content: Option<EditorContent>, opened_with: String, plain: String) -> (r:
    OutgoingBody)
    ensures
        !rich ==> r.text@ == plain@ && r.html is None && r.images@.len() == 0,
        rich && content is None ==> r.text@ == opened_with@ && r.html is None && r.images@.len() == 0,
        rich && content is Some ==> {
            let c = content->0;
            if blank(c.text@) && c.images@.len() == 0 {
                r.text@.len() == 0 && r.html is None && r.images@.len() == 0
            } else {
                r.text@ == trimmed(c.text@) && text_of(r.html) == Some(trimmed(c.html@)) && image_views(
                    r.images@,
                ) == image_views(c.images@)
            }
        },
{
    if !rich {
        return OutgoingBody { text: plain, html: None, images: Vec::new() };
    }
    match content {
        None => OutgoingBody { text: opened_with, html: None, images: Vec::new() },
        Some(c) => {
            let text = trim(&c.text).to_owned();
            if text.as_str().is_empty() && c.images.is_empty() {
                OutgoingBody { text: String::new(), html: None, images: Vec::new() }
            } else {
                let html = trim(&c.html).to_owned();
                OutgoingBody { text, html: Some(html), images: c.images }
            }
        },
    }
}

/// One of the things that a click on Send asks for.
#[derive(Debug)]
pub enum SendStep {
    /// The draft with the id is deleted.
    DeleteDraft { message_id: String },
    /// It is said that the message with the subject is being sent.
    Announce { subject: String },
    Send { msg: ComposedMessage },
    /// The composer is finished, and no draft is saved from time to time any more.
    Close,
    /// Whoever opened the composer is told that it is done.
    Done,
}

/// What a click on Send asks for, as text.
pub enum SendStepView {
    DeleteDraft(Seq<char>),
    Announce(Seq<char>),
    Send(MessageView),
    Close,
    Done,
}

impl View for SendStep {
    type V = SendStepView;

    open spec fn view(&self) -> SendStepView {
        match self {
            SendStep::DeleteDraft { message_id } => SendStepView::DeleteDraft(message_id@),
            SendStep::Announce { subject } => SendStepView::Announce(subject@),
            SendStep::Send { msg } => SendStepView::Send(msg@),
            SendStep::Close => SendStepView::Close,
            SendStep::Done => SendStepView::Done,
        }
    }
}

/// Steps as text.
pub open spec fn step_views(v: Seq<SendStep>) -> Seq<SendStepView> {
    v.map_values(|s: SendStep| s@)
}

/// The fields of the composer at the moment of a click on Send.
#[derive(Debug)]
pub struct SendFields {
    pub to: Vec<String>,
    pub cc: Vec<String>,
    pub bcc: Vec<String>,
    pub subject: String,
    pub attachments: Vec<PendingAttachment>,
    pub read_receipt: bool,
    pub in_reply_to: Option<String>,
    pub references: Vec<String>,
}

/// The message that is sent.
pub open spec fn sent_message(fields: SendFields, body: OutgoingBody, identity: Identity) -> MessageView {
    MessageView {
        from: identity.email@,
        display_name: shown_name(identity),
        to: texts_of(fields.to@),
        cc: texts_of(fields.cc@),
        bcc: texts_of(fields.bcc@) + addresses(identity.bcc@),
        reply_to: addresses(identity.reply_to@),
        subject: fields.subject@,
        text_body: body.text@,
        html_body: text_of(body.html),
        attachments: mailed_of(fields.attachments@),
        inline_images: image_views(body.images@),
        request_read_receipt: fields.read_receipt,
        in_reply_to: text_of(fields.in_reply_to),
        references: texts_of(fields.references@),
        message_id: None,
    }
}

/// What a click on Send asks for, in order: nothing without a recipient; otherwise that the draft of
/// the message is deleted, if one was saved, that the message is announced and sent, and that the
/// composer is closed and done.
pub open spec fn steps_of_send(
    fields: SendFields,
    body: OutgoingBody,
    identity: Identity,
    autosave: AutosaveView,
) -> Seq<SendStepView> {
    let msg = sent_message(fields, body, identity);
    if fields.to@.len() == 0 {
        Seq::empty()
    } else {
        (if autosave.draft_queued {
            seq![SendStepView::DeleteDraft(autosave.message_id)]
        } else {
            Seq::empty()
        }) + seq![
            SendStepView::Announce(msg.subject),
            SendStepView::Send(msg),
            SendStepView::Close,
            SendStepView::Done,
        ]
    }
}

/// A click on Send.
pub fn prepare_send(fields: SendFields, body: OutgoingBody, identity: &Identity, autosave: &Autosave) -> (r:
    Vec<SendStep>)
    ensures
        step_views(r@) == steps_of_send(fields, body, *identity, autosave@),
{
    let mut steps: Vec<SendStep> = Vec::new();
    if fields.to.is_empty() {
        assert(step_views(steps@) =~= Seq::<SendStepView>::empty());
        return steps;
    }
    let ghost want = steps_of_send(fields, body, *identity, autosave@);
    let mut bcc = fields.bcc;
    push_addresses(&mut bcc, &identity.bcc);
    let mut reply_to: Vec<String> = Vec::new();
    push_addresses(&mut reply_to, &identity.reply_to);
    assert(texts_of(reply_to@) =~= addresses(identity.reply_to@));
    let msg = ComposedMessage {
        from: identity.email.clone(),
        display_name: identity_name(identity),
        to: fields.to,
        cc: fields.cc,
        bcc,
        reply_to,
        subject: fields.subject,
        text_body: body.text,
        html_body: body.html,
        attachments: mail_attachments(&fields.attachments),
        inline_images: body.images,
        request_read_receipt: fields.read_receipt,
        in_reply_to: fields.in_reply_to,
        references: fields.references,
        message_id: None,
    };
    let subject = msg.subject.clone();
    if autosave.draft_queued {
        steps.push(SendStep::DeleteDraft { message_id: autosave.message_id.clone() });
    }
    steps.push(SendStep::Announce { subject });
    steps.push(SendStep::Send { msg });
    steps.push(SendStep::Close);
    steps.push(SendStep::Done);
    assert(step_views(steps@) =~= want);
    steps
}

/// One of the things that a click on Cancel asks for.
#[derive(Clone, Copy, PartialEq, Eq, Structural, Debug)]
pub enum CancelStep {
    /// A save is attempted, whether the composer is closed or not.
    Save,
    /// The composer is finished, and no draft is saved from time to time any more.
    Close,
    /// Whoever opened the composer is told that it is done.
    Done,
}

/// A click on Cancel: one last save, so that nothing is lost, and then the composer is closed and
/// done.
pub fn prepare_cancel() -> (r: Vec<CancelStep>)
    ensures
        r@ == seq![CancelStep::Save, CancelStep::Close, CancelStep::Done],
{
    let mut steps: Vec<CancelStep> = Vec::new();
    steps.push(CancelStep::Save);
    steps.push(CancelStep::Close);
    steps.push(CancelStep::Done);
    assert(steps@ =~= seq![CancelStep::Save, CancelStep::Close, CancelStep::Done]);
    steps
}

/// A last save loses nothing: unless another save was going on, what the composer held, if it was
/// worth saving, is what was saved last.
pub proof fn lemma_last_save_keeps_work(state: AutosaveView, snap: DraftView)
    requires
        !state.in_flight,
        !trivial(snap),
    ensures
        state.begun().ended(Some(snap)).last_saved == Some(snap),
        state.last_saved != Some(snap) ==> state.begun().saves(Some(snap)),
{
}

/// Where a composer lives, and whether it still does.
#[derive(Clone, Copy, PartialEq, Eq, Structural, Debug)]
pub struct ComposerPlace {
    /// The composer is done: sent, cancelled or displaced.
    pub closed: bool,
    /// The composer is being moved between windows.
    pub moving: bool,
    /// The composer is in a window of its own.
    pub popped_out: bool,
}

/// Something that happens to a composer.
pub enum PlaceEvent {
    /// A click on the pop-out button.
    PopOut,
    /// A move is over.
    Moved,
    /// It was put into a window, or taken out of one.
    Rooted(bool),
    /// It was sent or cancelled.
    Finished,
}

impl ComposerPlace {
    /// A composer in its place after something happened to it.
    pub open spec fn next(self, event: PlaceEvent) -> ComposerPlace {
        match event {
            PlaceEvent::PopOut => if self.popped_out {
                self
            } else {
                ComposerPlace { moving: true, popped_out: true, ..self }
            },
            PlaceEvent::Moved => ComposerPlace { moving: false, ..self },
            PlaceEvent::Rooted(rooted) => ComposerPlace {
                closed: self.closed || (!rooted && !self.moving),
                ..self
            },
            PlaceEvent::Finished => ComposerPlace { closed: true, ..self },
        }
    }

    /// A composer in its place after several things happened to it.
    pub open spec fn after(self, events: Seq<PlaceEvent>) -> ComposerPlace
        decreases events.len(),
    {
        if events.len() == 0 {
            self
        } else {
            self.after(events.drop_last()).next(events.last())
        }
    }

    /// A composer that was just opened.
    pub fn new() -> (r: ComposerPlace)
        ensures
            r == (ComposerPlace { closed: false, moving: false, popped_out: false }),
    {
        ComposerPlace { closed: false, moving: false, popped_out: false }
    }

    /// Whether a draft is saved from time to time: until the composer is closed.
    pub fn ticks(self) -> (r: bool)
        ensures
            r == !self.closed,
    {
        !self.closed
    }

    /// The composer was sent or cancelled.
    pub fn finish(&mut self)
        ensures
            *final(self) == old(self).next(PlaceEvent::Finished),
    {
        self.closed = true;
    }

    /// A click on the pop-out button. Says whether the composer is to be moved: not if it is in a
    /// window of its own already.
    pub fn pop_out(&mut self) -> (r: bool)
        ensures
            r == !old(self).popped_out,
            *final(self) == old(self).next(PlaceEvent::PopOut),
    {
        if self.popped_out {
            return false;
        }
        self.moving = true;
        self.popped_out = true;
        true
    }

    /// The move is over.
    pub fn moved(&mut self)
        ensures
            *final(self) == old(self).next(PlaceEvent::Moved),
    {
        self.moving = false;
    }

    /// The composer was taken out of its window or put into one. Taking it out without moving it
    /// ends it. Says, for a composer in a window, whether its own header is shown: not in a window
    /// of its own.
    pub fn root_changed(&mut self, rooted: bool) -> (r: Option<bool>)
        ensures
            *final(self) == old(self).next(PlaceEvent::Rooted(rooted)),
            r == if rooted {
                Some(!old(self).popped_out)
            } else {
                None
            },
    {
        if !rooted {
            if !self.moving {
                self.closed = true;
            }
            None
        } else {
            Some(!self.popped_out)
        }
    }

    /// A composer that is closed stays closed, whatever happens to it, so that no draft is saved
    /// from time to time ever again.
    pub proof fn lemma_closed_for_good(self, events: Seq<PlaceEvent>)
        requires
            self.closed,
        ensures
            self.after(events).closed,
        decreases events.len(),
    {
        if events.len() > 0 {
            self.lemma_closed_for_good(events.drop_last());
        }
    }

    /// What closes a composer: that it is sent or cancelled, or that it is taken out of its window
    /// without being moved.
    pub proof fn lemma_what_closes(self, events: Seq<PlaceEvent>)
        requires
            !self.closed,
        ensures
            self.after(events).closed <==> exists|i: int|
                #![trigger events[i]]
                0 <= i < events.len() && (events[i] is Finished || (events[i] == PlaceEvent::Rooted(false)
                    && !self.after(events.take(i)).moving)),
        decreases events.len(),
    {
        if events.len() > 0 {
            let n = events.len() - 1;
            let rest = events.drop_last();
            self.lemma_what_closes(rest);
            assert(events.take(n) =~= rest);
            assert forall|i: int| 0 <= i < n implies #[trigger] events[i] == rest[i] && events.take(i) == rest.take(
                i,
            ) by {
                assert(events.take(i) =~= rest.take(i));
            }
            assert(events[n] == events.last());
            if self.after(rest).closed {
                let i = choose|i: int|
                    #![trigger rest[i]]
                    0 <= i < rest.len() && (rest[i] is Finished || (rest[i] == PlaceEvent::Rooted(false)
                        && !self.after(rest.take(i)).moving));
                assert(events[i] == rest[i]);
            }
        }
    }
}

/// What is sent goes to whom the composer says, and to nobody else in sight: the recipients and those
/// who get a copy are those of the fields; whoever gets a hidden copy, by the fields or by the
/// identity, stands among those alone.
pub proof fn lemma_sent_to_whom(
    fields: SendFields,
    body: OutgoingBody,
    identity: Identity,
    autosave: AutosaveView,
    sent: ComposedMessage,
    a: Seq<char>,
)
    requires
        steps_of_send(fields, body, identity, autosave).contains(SendStepView::Send(sent@)),
    ensures
        texts_of(sent.to@).contains(a) <==> names(fields.to@, a),
        texts_of(sent.cc@).contains(a) <==> names(fields.cc@, a),
        texts_of(sent.bcc@).contains(a) <==> names(fields.bcc@, a) || knows(identity.bcc@, a),
        texts_of(sent.reply_to@).contains(a) <==> knows(identity.reply_to@, a),
        sent.to@.len() == fields.to@.len(),
        sent.cc@.len() == fields.cc@.len(),
        sent.bcc@.len() == fields.bcc@.len() + identity.bcc@.len(),
{
    lemma_sent(fields, body, identity, autosave, sent);
    lemma_names(fields.to@, a);
    lemma_names(fields.cc@, a);
    lemma_names(fields.bcc@, a);
    lemma_knows(identity.bcc@, a);
    lemma_knows(identity.reply_to@, a);
    lemma_either(texts_of(fields.bcc@), addresses(identity.bcc@), a);
    assert(texts_of(sent.to@).len() == sent.to@.len());
    assert(texts_of(sent.cc@).len() == sent.cc@.len());
    assert(texts_of(sent.bcc@).len() == sent.bcc@.len());
}

/// One of the texts is this one.
pub open spec fn names(list: Seq<String>, a: Seq<char>) -> bool {
    exists|i: int| 0 <= i < list.len() && (#[trigger] list[i])@ == a
}

/// One of the addresses is this one.
pub open spec fn knows(list: Seq<EmailAddress>, a: Seq<char>) -> bool {
    exists|i: int| 0 <= i < list.len() && (#[trigger] list[i]).address@ == a
}

proof fn lemma_names(list: Seq<String>, a: Seq<char>)
    ensures
        texts_of(list).contains(a) <==> names(list, a),
{
    if names(list, a) {
        let i = choose|i: int| 0 <= i < list.len() && (#[trigger] list[i])@ == a;
        assert(texts_of(list)[i] == a);
    }
    if texts_of(list).contains(a) {
        let i = choose|i: int| 0 <= i < texts_of(list).len() && texts_of(list)[i] == a;
        assert(list[i]@ == a);
    }
}

proof fn lemma_knows(list: Seq<EmailAddress>, a: Seq<char>)
    ensures
        addresses(list).contains(a) <==> knows(list, a),
{
    if knows(list, a) {
        let i = choose|i: int| 0 <= i < list.len() && (#[trigger] list[i]).address@ == a;
        assert(addresses(list)[i] == a);
    }
    if addresses(list).contains(a) {
        let i = choose|i: int| 0 <= i < addresses(list).len() && addresses(list)[i] == a;
        assert(list[i].address@ == a);
    }
}

proof fn lemma_either(x: Seq<Seq<char>>, y: Seq<Seq<char>>, a: Seq<char>)
    ensures
        (x + y).contains(a) <==> x.contains(a) || y.contains(a),
{
    if x.contains(a) {
        let i = choose|i: int| 0 <= i < x.len() && x[i] == a;
        assert((x + y)[i] == a);
    }
    if y.contains(a) {
        let i = choose|i: int| 0 <= i < y.len() && y[i] == a;
        assert((x + y)[x.len() + i] == a);
    }
}

proof fn lemma_sent(
    fields: SendFields,
    body: OutgoingBody,
    identity: Identity,
    autosave: AutosaveView,
    sent: ComposedMessage,
)
    requires
        steps_of_send(fields, body, identity, autosave).contains(SendStepView::Send(sent@)),
    ensures
        sent@ == sent_message(fields, body, identity),
        fields.to@.len() > 0,
{
    let steps = steps_of_send(fields, body, identity, autosave);
    let i = choose|i: int| 0 <= i < steps.len() && steps[i] == SendStepView::Send(sent@);
    assert(steps[i] is Send);
}

/// What is sent says what the composer says, under the name and the address of the identity: the
/// subject, the text, the HTML and the files are those that were written, and it answers what the
/// composer answers. It has no id yet.
pub proof fn lemma_sent_as_written(
    fields: SendFields,
    body: OutgoingBody,
    identity: Identity,
    autosave: AutosaveView,
    sent: ComposedMessage,
)
    requires
        steps_of_send(fields, body, identity, autosave).contains(SendStepView::Send(sent@)),
    ensures
        sent.from@ == identity.email@,
        match sent.display_name {
            Some(n) => n@ == identity.name@ && !blank(identity.name@),
            None => blank(identity.name@),
        },
        sent.subject@ == fields.subject@,
        sent.text_body@ == body.text@,
        match (sent.html_body, body.html) {
            (Some(x), Some(y)) => x@ == y@,
            (None, None) => true,
            _ => false,
        },
        match (sent.in_reply_to, fields.in_reply_to) {
            (Some(x), Some(y)) => x@ == y@,
            (None, None) => true,
            _ => false,
        },
        sent.references@.len() == fields.references@.len(),
        forall|i: int| 0 <= i < sent.references@.len() ==> (#[trigger] sent.references@[i])@ == fields.references@[i]@,
        sent.message_id is None,
        sent.request_read_receipt == fields.read_receipt,
        sent.attachments@.len() == fields.attachments@.len(),
        forall|i: int|
            0 <= i < sent.attachments@.len() ==> (#[trigger] sent.attachments@[i]).filename@
                == fields.attachments@[i].filename@ && sent.attachments@[i].content_type@
                == fields.attachments@[i].content_type@ && sent.attachments@[i].bytes@
                == fields.attachments@[i].bytes@,
        image_views(sent.inline_images@) == image_views(body.images@),
{
    lemma_sent(fields, body, identity, autosave, sent);
    assert(texts_of(sent.references@).len() == sent.references@.len());
    assert(texts_of(fields.references@).len() == fields.references@.len());
    assert forall|i: int| 0 <= i < sent.references@.len() implies (#[trigger] sent.references@[i])@
        == fields.references@[i]@ by {
        assert(texts_of(sent.references@)[i] == texts_of(fields.references@)[i]);
    }
    let v = attachment_views(sent.attachments@);
    assert(v.len() == sent.attachments@.len());
    assert(mailed_of(fields.attachments@).len() == fields.attachments@.len());
    assert forall|i: int| 0 <= i < sent.attachments@.len() implies (#[trigger] sent.attachments@[i]).filename@
        == fields.attachments@[i].filename@ && sent.attachments@[i].content_type@
        == fields.attachments@[i].content_type@ && sent.attachments@[i].bytes@ == fields.attachments@[i].bytes@ by {
        assert(v[i] == mailed_of(fields.attachments@)[i]);
    }
}

/// In what order a message is sent: its draft is deleted before it is announced, it is announced
/// before it is sent, and it is sent before the composer closes; each of these once, and the draft
/// only if there is one.
pub proof fn lemma_order_of_sending(
    fields: SendFields,
    body: OutgoingBody,
    identity: Identity,
    autosave: AutosaveView,
)
    ensures
        ({
            let steps = steps_of_send(fields, body, identity, autosave);
            let n = steps.len() as int;
            if fields.to@.len() == 0 {
                n == 0
            } else {
                &&& n == (if autosave.draft_queued {
                    5int
                } else {
                    4int
                })
                &&& autosave.draft_queued ==> steps[0] == SendStepView::DeleteDraft(autosave.message_id)
                &&& steps[n - 4] == SendStepView::Announce(fields.subject@)
                &&& steps[n - 3] is Send
                &&& steps[n - 2] is Close
                &&& steps[n - 1] is Done
            }
        }),
{
}

/// A draft is saved as the message that would be sent: for the same recipients, subject and files the
/// two agree, but for the id that only the draft has.
pub proof fn lemma_draft_like_sent(
    fields: SendFields,
    body: OutgoingBody,
    identity: Identity,
    autosave: AutosaveView,
    sent: ComposedMessage,
    snap: DraftSnapshot,
    draft: ComposedMessage,
)
    requires
        steps_of_send(fields, body, identity, autosave).contains(SendStepView::Send(sent@)),
        draft@ == draft_of(
            snap,
            identity,
            text_of(fields.in_reply_to),
            texts_of(fields.references@),
            autosave.message_id,
        ),
        texts_of(fields.to@) == addresses_of(snap.to@),
        texts_of(fields.cc@) == addresses_of(snap.cc@),
        texts_of(fields.bcc@) == addresses_of(snap.bcc@),
        fields.subject@ == snap.subject@,
        fields.read_receipt == snap.read_receipt,
        mailed_of(fields.attachments@) == mailed_of(snap.attachments@),
    ensures
        texts_of(draft.to@) == texts_of(sent.to@),
        texts_of(draft.cc@) == texts_of(sent.cc@),
        texts_of(draft.bcc@) == texts_of(sent.bcc@),
        texts_of(draft.reply_to@) == texts_of(sent.reply_to@),
        draft.from@ == sent.from@,
        text_of(draft.display_name) == text_of(sent.display_name),
        draft.subject@ == sent.subject@,
        draft.request_read_receipt == sent.request_read_receipt,
        text_of(draft.in_reply_to) == text_of(sent.in_reply_to),
        texts_of(draft.references@) == texts_of(sent.references@),
        attachment_views(draft.attachments@) == attachment_views(sent.attachments@),
        text_of(draft.message_id) == Some(autosave.message_id),
        sent.message_id is None,
{
    lemma_sent(fields, body, identity, autosave, sent);
}

/// A draft holds the text of the composer; its HTML too if it is rich text, which a plain one has
/// none of.
pub proof fn lemma_draft_holds_text(
    snap: DraftSnapshot,
    identity: Identity,
    in_reply_to: Option<Seq<char>>,
    references: Seq<Seq<char>>,
    message_id: Seq<char>,
    draft: ComposedMessage,
)
    requires
        draft@ == draft_of(snap, identity, in_reply_to, references, message_id),
    ensures
        draft.text_body@ == snap.body_text@,
        match draft.html_body {
            Some(html) => snap.rich && html@ == snap.body@,
            None => !snap.rich,
        },
        image_views(draft.inline_images@) == image_views(snap.inline_images@),
{
}

/// A draft is worth saving as soon as anything was written into any field or anything was attached.
pub proof fn lemma_anything_written_is_saved(state: AutosaveView, snap: DraftSnapshot)
    ensures
        trivial(snap@) <==> blank(snap.to@) && blank(snap.cc@) && blank(snap.bcc@) && blank(snap.subject@)
            && blank(snap.body_text@) && snap.attachments@.len() == 0 && snap.inline_images@.len() == 0,
        state.last_saved is None && !trivial(snap@) ==> state.saves(Some(snap@)),
        state.saves(Some(snap@)) ==> !trivial(snap@) && state.last_saved != Some(snap@),
        !state.saves(None),
{
    assert(keys_of(snap.attachments@).len() == snap.attachments@.len());
    assert(image_views(snap.inline_images@).len() == snap.inline_images@.len());
}

} // verus!
