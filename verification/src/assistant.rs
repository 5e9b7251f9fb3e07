//! The server that the assistant talks to: where it is, what it answers and what is said of it.

use crate::encodings::{debug_quote, debug_quoted, is_json, json_array_at, json_array_len};
use crate::encodings::{json_document, json_string, json_string_at};
use crate::model::{text_of, texts_of};
use crate::sorting::{as_rows, key_texts, sort_texts, text_order, TextKey};
use crate::text::{blank, chars_of, decimal, decimal_text, is_blank, strip_back};
use crate::text::{trim, trim_end_matches, trimmed};
use vstd::prelude::*;

verus! {

/// The application that a keyring item belongs to.
pub const KEYRING_APPLICATION: &'static str = "io.github.gavindi.Lookout";

/// The account of the keyring item with the assistant's token.
pub const TOKEN_ACCOUNT: &'static str = "assistant";

/// The protocol of the keyring item with the assistant's token.
pub const TOKEN_PROTOCOL: &'static str = "api-token";

/// The attributes by which the token is found in the keyring.
pub open spec fn token_attribute_pairs() -> Seq<(Seq<char>, Seq<char>)> {
    seq![
        ("application"@, KEYRING_APPLICATION@),
        ("account"@, TOKEN_ACCOUNT@),
        ("protocol"@, TOKEN_PROTOCOL@),
    ]
}

/// The attributes by which the token is found in the keyring.
pub fn token_attributes() -> (r: Vec<(&'static str, &'static str)>)
    ensures
        r@.map_values(|p: (&'static str, &'static str)| (p.0@, p.1@)) == token_attribute_pairs(),
{
    let mut attrs: Vec<(&'static str, &'static str)> = Vec::new();
    attrs.push(("application", KEYRING_APPLICATION));
    attrs.push(("account", TOKEN_ACCOUNT));
    attrs.push(("protocol", TOKEN_PROTOCOL));
    assert(attrs@.map_values(|p: (&'static str, &'static str)| (p.0@, p.1@))
        =~= token_attribute_pairs());
    attrs
}

/// A base address without white space around it and without slashes at its end.
pub open spec fn base_address(url: Seq<char>) -> Seq<char> {
    strip_back(trimmed(url), |c: char| c == '/')
}

/// The address of the list of models below a base address. Without a base address there is none.
pub fn models_url(base_url: &str) -> (r: Result<String, String>)
    ensures
        match r {
            Ok(url) => base_address(base_url@).len() > 0 && url@ == base_address(base_url@) + "/models"@,
            Err(e) => base_address(base_url@).len() == 0 && e@ == "Enter an API URL first"@,
        },
{
    let base = trim_end_matches(trim(base_url), '/');
    if base.is_empty() {
        return Err("Enter an API URL first".to_owned());
    }
    let mut url = base.to_owned();
    url.push_str("/models");
    Ok(url)
}

/// A request for the list of models.
#[derive(Debug)]
pub struct ModelsRequest {
    pub url: String,
    /// The token to show, if there is one.
    pub bearer: Option<String>,
}

/// The request for the list of models below a base address. A token is shown unless it is empty.
pub fn models_request(base_url: &str, token: &str) -> (r: Result<ModelsRequest, String>)
    ensures
        match r {
            Ok(request) => {
                &&& base_address(base_url@).len() > 0
                &&& request.url@ == base_address(base_url@) + "/models"@
                &&& text_of(request.bearer) == (if token@.len() > 0 {
                    Some(token@)
                } else {
                    None
                })
            },
            Err(e) => base_address(base_url@).len() == 0 && e@ == "Enter an API URL first"@,
        },
{
    let url = match models_url(base_url) {
        Ok(url) => url,
        Err(e) => return Err(e),
    };
    let bearer: Option<String> = if token.is_empty() {
        None
    } else {
        Some(token.to_owned())
    };
    Ok(ModelsRequest { url, bearer })
}

/// How much of a server's answer is shown.
pub const SNIPPET_CHARS: usize = 200;

/// The start of a text, with an ellipsis if there is more.
pub open spec fn snippet_of(body: Seq<char>) -> Seq<char> {
    if body.len() > SNIPPET_CHARS {
        body.take(SNIPPET_CHARS as int).push('…')
    } else {
        body
    }
}

/// The start of a text, with an ellipsis if there is more.
pub fn snippet(body: &str) -> (r: String)
    ensures
        r@ == snippet_of(body@),
{
    let chars = chars_of(body);
    if chars.len() > SNIPPET_CHARS {
        let mut out = String::new();
        let mut i: usize = 0;
        while i < SNIPPET_CHARS
            invariant
                i <= SNIPPET_CHARS < chars@.len(),
                out@ == chars@.take(i as int),
            decreases SNIPPET_CHARS - i,
        {
            out.push(chars[i]);
            assert(out@ =~= chars@.take(i + 1));
            i += 1;
        }
        out.push('…');
        out
    } else {
        body.to_owned()
    }
}

/// What is said of a server that answered with an error: the status, and the start of what it
/// wrote unless that is blank.
pub open spec fn status_report(status: Seq<char>, body: Seq<char>) -> Seq<char> {
    let head = "The server answered "@ + status;
    if blank(snippet_of(body)) {
        head
    } else {
        head + " — "@ + snippet_of(body)
    }
}

/// What is said of a server that answered with an error.
pub fn status_error(status: &str, body: &str) -> (r: String)
    ensures
        r@ == status_report(status@, body@),
{
    let mut out = "The server answered ".to_owned();
    out.push_str(status);
    let start = snippet(body);
    if !is_blank(&start) {
        out.push_str(" — ");
        out.push_str(&start);
    }
    out
}

/// What is said of a request that could not be sent: that the address is wrong, or that there was
/// no connection.
pub fn request_error(url: &str, invalid_url: bool, error: &str) -> (r: String)
    ensures
        r@ == (if invalid_url {
            "Invalid API URL "@ + debug_quoted(url@) + ": "@ + error@
        } else {
            "Connection failed: "@ + error@
        }),
{
    if invalid_url {
        let mut out = "Invalid API URL ".to_owned();
        out.push_str(&debug_quote(url));
        out.push_str(": ");
        out.push_str(error);
        out
    } else {
        let mut out = "Connection failed: ".to_owned();
        out.push_str(error);
        out
    }
}

/// What came of asking a server for its models.
#[derive(Debug)]
pub enum Probe {
    /// It could not be asked. The address may be at fault.
    Unsent { invalid_url: bool, error: String },
    /// It answered with a status and a text.
    Answered { status: u16, status_text: String, body: String },
}

/// A status that stands for success.
pub open spec fn is_success(status: u16) -> bool {
    200 <= status < 300
}

/// What is said if a server could not be asked or answered with an error.
pub open spec fn probe_error(url: Seq<char>, probe: Probe) -> Option<Seq<char>> {
    match probe {
        Probe::Unsent { invalid_url, error } => Some(
            if invalid_url {
                "Invalid API URL "@ + debug_quoted(url) + ": "@ + error@
            } else {
                "Connection failed: "@ + error@
            },
        ),
        Probe::Answered { status, status_text, body } => if is_success(status) {
            None
        } else {
            Some(status_report(status_text@, body@))
        },
    }
}

/// The outcome of a connection test.
pub fn connection_result(url: &str, probe: &Probe) -> (r: Result<(), String>)
    ensures
        match r {
            Ok(_) => probe_error(url@, *probe) is None,
            Err(e) => probe_error(url@, *probe) == Some(e@),
        },
{
    match probe {
        Probe::Unsent { invalid_url, error } => Err(request_error(url, *invalid_url, error)),
        Probe::Answered { status, status_text, body } => if 200 <= *status && *status < 300 {
            Ok(())
        } else {
            Err(status_error(status_text, body))
        },
    }
}

/// The place of a model's id in a list of models.
pub open spec fn id_pointer(i: int) -> Seq<char> {
    "/data/"@ + decimal(i as nat) + "/id"@
}

/// The ids that models have, in a list of models; none if there is no list.
pub open spec fn listed_ids(body: Seq<char>) -> Seq<Option<Seq<char>>> {
    match json_array_at(body, "/data"@) {
        Some(n) => Seq::new(n as nat, |i: int| json_string_at(body, id_pointer(i))),
        None => Seq::empty(),
    }
}

/// The texts that are there.
pub open spec fn present(v: Seq<Option<Seq<char>>>) -> Seq<Seq<char>>
    decreases v.len(),
{
    if v.len() == 0 {
        Seq::empty()
    } else {
        match v.last() {
            Some(s) => present(v.drop_last()).push(s),
            None => present(v.drop_last()),
        }
    }
}

/// Texts in order.
pub open spec fn sorted_texts(v: Seq<Seq<char>>) -> Seq<Seq<char>> {
    text_order(v).map_values(|i: int| v[i])
}

/// Texts that may be missing.
pub open spec fn optional_texts(v: Seq<Option<String>>) -> Seq<Option<Seq<char>>> {
    v.map_values(|o: Option<String>| text_of(o))
}

/// The ids of models, in order; models without an id are left out.
pub fn sorted_ids(found: &Vec<Option<String>>) -> (r: Vec<String>)
    ensures
        texts_of(r@) == sorted_texts(present(optional_texts(found@))),
{
    let ghost given = optional_texts(found@);
    let mut keys: Vec<TextKey> = Vec::new();
    let mut i: usize = 0;
    assert(given.take(0) =~= Seq::<Option<Seq<char>>>::empty());
    assert(key_texts(keys@) =~= present(given.take(0)));
    while i < found.len()
        invariant
            i <= found.len(),
            given == optional_texts(found@),
            key_texts(keys@) == present(given.take(i as int)),
        decreases found.len() - i,
    {
        assert(given.take(i + 1).drop_last() =~= given.take(i as int));
        if let Some(id) = &found[i] {
            let ghost before = key_texts(keys@);
            keys.push(TextKey { text: id.clone() });
            assert(key_texts(keys@) =~= before.push(id@));
        }
        i += 1;
    }
    assert(given.take(i as int) =~= given);
    let order = sort_texts(&keys);
    let ghost all = key_texts(keys@);
    let ghost want = sorted_texts(all);
    assert(as_rows(order@).len() == order@.len());
    let mut out: Vec<String> = Vec::new();
    let mut j: usize = 0;
    assert(texts_of(out@) =~= want.take(0));
    while j < order.len()
        invariant
            j <= order.len() == want.len(),
            as_rows(order@) == text_order(all),
            all == key_texts(keys@),
            want == sorted_texts(all),
            forall|k: int| 0 <= k < order@.len() ==> #[trigger] order@[k] < keys@.len(),
            texts_of(out@) == want.take(j as int),
        decreases order.len() - j,
    {
        let k: usize = order[j];
        let ghost before = texts_of(out@);
        assert(as_rows(order@)[j as int] == k);
        let id = keys[k].text.clone();
        out.push(id);
        assert(texts_of(out@) =~= before.push(id@));
        assert(want.take(j + 1) =~= want.take(j as int).push(want[j as int]));
        j += 1;
    }
    assert(want.take(j as int) =~= want);
    out
}

/// The ids of the models that a server lists, in order; nothing if what it wrote is no JSON.
pub fn model_ids(body: &str) -> (r: Option<Vec<String>>)
    ensures
        match r {
            Some(ids) => json_document(body@) && texts_of(ids@) == sorted_texts(
                present(listed_ids(body@)),
            ),
            None => !json_document(body@),
        },
{
    if !is_json(body) {
        return None;
    }
    let n: usize = match json_array_len(body, "/data") {
        Some(n) => n,
        None => 0,
    };
    let ghost want = listed_ids(body@);
    let mut found: Vec<Option<String>> = Vec::new();
    let mut i: usize = 0;
    assert(optional_texts(found@) =~= want.take(0));
    while i < n
        invariant
            i <= n == want.len(),
            want == listed_ids(body@),
            optional_texts(found@) == want.take(i as int),
        decreases n - i,
    {
        let mut pointer = "/data/".to_owned();
        pointer.push_str(&decimal_text(i as u64));
        pointer.push_str("/id");
        assert(pointer@ == id_pointer(i as int));
        let id = json_string(body, &pointer);
        let ghost before = optional_texts(found@);
        let ghost text = text_of(id);
        found.push(id);
        assert(optional_texts(found@) =~= before.push(text));
        assert(want.take(i + 1) =~= want.take(i as int).push(want[i as int]));
        i += 1;
    }
    assert(want.take(i as int) =~= want);
    Some(sorted_ids(&found))
}

/// The models that a server lists, or what is said if it does not list them. What is said of an
/// answer that is no JSON ends in what the reader of JSON said.
pub fn model_list(url: &str, probe: &Probe, json_error: &str) -> (r: Result<Vec<String>, String>)
    ensures
        match (probe_error(url@, *probe), *probe) {
            (None, Probe::Answered { body, .. }) => match r {
                Ok(ids) => json_document(body@) && texts_of(ids@) == sorted_texts(
                    present(listed_ids(body@)),
                ),
                Err(e) => !json_document(body@) && e@
                    == "The server's answer wasn't a JSON /models list: "@ + json_error@,
            },
            (e, _) => r is Err && e == Some(r->Err_0@),
        },
{
    match connection_result(url, probe) {
        Err(e) => Err(e),
        Ok(_) => match probe {
            Probe::Answered { body, .. } => match model_ids(body) {
                Some(ids) => Ok(ids),
                None => {
                    let mut out = "The server's answer wasn't a JSON /models list: ".to_owned();
                    out.push_str(json_error);
                    Err(out)
                },
            },
            Probe::Unsent { error, .. } => Err(error.clone()),
        },
    }
}

} // verus!
