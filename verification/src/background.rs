//! Starting at login and running without a window.

use crate::fresh_ids::{new_simple_uuid, simple_uuid_shape};
use crate::paths::{below, join_path};
use crate::text::{chars_of, decimal, decimal_text, has_prefix, strip_prefix, without_prefix};
use vstd::prelude::*;

verus! {

/// The name of the file that starts the program at login.
pub const AUTOSTART_FILE_NAME: &'static str = "io.github.gavindi.Lookout.desktop";

/// Why the program asks to be started at login.
pub const AUTOSTART_REASON: &'static str = "Start Lookout at login so your mail and calendar notifications keep working";

/// Why the program asks to run without a window.
pub const BACKGROUND_REASON: &'static str = "Lookout stays running to sync your mail and calendar";

/// What came of asking to be started at login.
#[derive(Clone, Copy, PartialEq, Eq, Structural, Debug)]
pub enum AutostartDecision {
    /// The desktop starts the program at login.
    Granted,
    /// The desktop does not.
    Denied,
    /// The desktop could not be asked.
    Unavailable,
}

/// What the desktop answered.
#[derive(Debug)]
pub enum PortalAnswer {
    /// It could not be asked, or the answer could not be read.
    Failed(String),
    /// It did not answer in time.
    TimedOut,
    /// It never answered.
    Closed,
    /// It answered with a status, zero for success, and what it says of starting at login: nothing,
    /// something that is neither yes nor no, or yes or no.
    Answered { response: u32, autostart: Option<Option<bool>> },
}

/// A bus name as part of an object path: without the colon, and with underscores for dots.
pub open spec fn path_element(name: Seq<char>) -> Seq<char> {
    let bare = match without_prefix(name, ":"@) {
        Some(s) => s,
        None => name,
    };
    bare.map_values(
        |c: char|
            if c == '.' {
                '_'
            } else {
                c
            },
    )
}

/// The object that the desktop answers a request on: known from the name on the bus and the token,
/// so that one can listen to it before asking.
pub fn request_path(bus_name: &str, token: &str) -> (r: String)
    ensures
        r@ == "/org/freedesktop/portal/desktop/request/"@ + path_element(bus_name@) + "/"@ + token@,
{
    let bare = match strip_prefix(bus_name, ":") {
        Some(s) => s,
        None => bus_name,
    };
    let chars = chars_of(bare);
    let mut out = "/org/freedesktop/portal/desktop/request/".to_owned();
    let ghost before = out@;
    let ghost want = path_element(bus_name@);
    let mut i: usize = 0;
    assert(out@ =~= before + want.take(0));
    while i < chars.len()
        invariant
            i <= chars.len() == want.len(),
            forall|k: int|
                0 <= k < chars.len() ==> #[trigger] want[k] == if chars@[k] == '.' {
                    '_'
                } else {
                    chars@[k]
                },
            out@ == before + want.take(i as int),
        decreases chars.len() - i,
    {
        out.push(
            if chars[i] == '.' {
                '_'
            } else {
                chars[i]
            },
        );
        assert(out@ =~= before + want.take(i + 1));
        i += 1;
    }
    assert(want.take(i as int) =~= want);
    out.push_str("/");
    out.push_str(token);
    out
}

/// What names a request to the desktop.
pub fn handle_token() -> (r: String)
    ensures
        has_prefix(r@, "lookout_"@),
        simple_uuid_shape(r@.skip(8)),
{
    proof {
        reveal_strlit("lookout_");
    }
    let mut out = "lookout_".to_owned();
    let id = new_simple_uuid();
    out.push_str(&id);
    assert(out@.take(8) =~= "lookout_"@);
    assert(out@.skip(8) =~= id@);
    out
}

/// Why a request failed, if it did.
pub open spec fn portal_error(answer: PortalAnswer) -> Option<Seq<char>> {
    match answer {
        PortalAnswer::Failed(e) => Some(e@),
        PortalAnswer::TimedOut => Some("timed out waiting for the portal's answer"@),
        PortalAnswer::Closed => Some("the portal closed the response stream"@),
        PortalAnswer::Answered { response, .. } => if response == 0 {
            None
        } else {
            Some("the portal denied the request (response "@ + decimal(response as nat) + ")"@)
        },
    }
}

/// Whether a request succeeded: then what the desktop says of starting at login, or else why it
/// failed.
pub fn request_background(answer: &PortalAnswer) -> (r: Result<Option<Option<bool>>, String>)
    ensures
        match r {
            Ok(autostart) => *answer == (PortalAnswer::Answered { response: 0, autostart }),
            Err(e) => portal_error(*answer) == Some(e@),
        },
{
    match answer {
        PortalAnswer::Failed(e) => Err(e.clone()),
        PortalAnswer::TimedOut => Err("timed out waiting for the portal's answer".to_owned()),
        PortalAnswer::Closed => Err("the portal closed the response stream".to_owned()),
        PortalAnswer::Answered { response, autostart } => if *response == 0 {
            Ok(*autostart)
        } else {
            let mut e = "the portal denied the request (response ".to_owned();
            e.push_str(&decimal_text(*response as u64));
            e.push_str(")");
            Err(e)
        },
    }
}

/// What an answer means for starting at login: only a clear yes counts as one, and any other answer
/// is a refusal. A request that got no answer leaves the matter open.
pub open spec fn decision_of(answer: PortalAnswer) -> AutostartDecision {
    match answer {
        PortalAnswer::Answered { response, autostart } => if response == 0 && autostart == Some(Some(true)) {
            AutostartDecision::Granted
        } else {
            AutostartDecision::Denied
        },
        _ => AutostartDecision::Unavailable,
    }
}

/// What an answer means for starting at login.
pub fn request_portal_autostart(answer: &PortalAnswer) -> (r: AutostartDecision)
    ensures
        r == decision_of(*answer),
{
    match answer {
        PortalAnswer::Answered { response, autostart } => match autostart {
            Some(Some(true)) => if *response == 0 {
                AutostartDecision::Granted
            } else {
                AutostartDecision::Denied
            },
            _ => AutostartDecision::Denied,
        },
        _ => AutostartDecision::Unavailable,
    }
}

/// Whether the program has to write its own file to be started at login: only where the desktop
/// could not be asked.
pub fn needs_autostart_file(decision: AutostartDecision) -> (r: bool)
    ensures
        r == (decision == AutostartDecision::Unavailable),
{
    match decision {
        AutostartDecision::Unavailable => true,
        _ => false,
    }
}

/// Whether the program is started at login: by the desktop, or where that could not be asked, by its
/// own file if it could be written. The desktop's refusal stands.
pub fn enable_login_autostart(decision: AutostartDecision, file_written: bool) -> (r: bool)
    ensures
        r == (match decision {
            AutostartDecision::Granted => true,
            AutostartDecision::Denied => false,
            AutostartDecision::Unavailable => file_written,
        }),
{
    match decision {
        AutostartDecision::Granted => true,
        AutostartDecision::Denied => false,
        AutostartDecision::Unavailable => file_written,
    }
}

/// The directory of the files that start programs at login.
pub fn autostart_dir(user_config_dir: &str) -> (r: String)
    ensures
        r@ == below(user_config_dir@, "autostart"@),
{
    join_path(user_config_dir, "autostart")
}

/// The file that starts the program at login.
pub fn autostart_file_path(user_config_dir: &str) -> (r: String)
    ensures
        r@ == below(below(user_config_dir@, "autostart"@), AUTOSTART_FILE_NAME@),
{
    join_path(&autostart_dir(user_config_dir), AUTOSTART_FILE_NAME)
}

/// What the file that starts the program at login says.
pub const AUTOSTART_CONTENT: &'static str = "[Desktop Entry]\nType=Application\nName=Lookout\nComment=Start at login to keep mail and calendar notifications working\nExec=lookout --hidden\nIcon=io.github.gavindi.Lookout\nTerminal=false\nX-GNOME-Autostart-enabled=true\n";

/// What the file that starts the program at login says.
pub fn autostart_file_content() -> (r: &'static str)
    ensures
        r@ == AUTOSTART_CONTENT@,
{
    AUTOSTART_CONTENT
}

/// How a file is written so that nobody sees half of it: the directory is made, the text goes to
/// another file there, and that is moved to the file's place.
#[derive(Debug)]
pub struct FileWrite {
    pub dir: String,
    pub temp_path: String,
    pub content: String,
    pub path: String,
}

/// How the file is written that starts the program at login, in a directory and by a process.
pub fn write_autostart_file(dir: &str, process_id: u32) -> (r: FileWrite)
    ensures
        r.dir@ == dir@,
        r.temp_path@ == below(dir@, "io.github.gavindi.Lookout.tmp"@ + decimal(process_id as nat)),
        r.content@ == AUTOSTART_CONTENT@,
        r.path@ == below(dir@, AUTOSTART_FILE_NAME@),
{
    let mut temp = "io.github.gavindi.Lookout.tmp".to_owned();
    temp.push_str(&decimal_text(process_id as u64));
    FileWrite {
        dir: dir.to_owned(),
        temp_path: join_path(dir, &temp),
        content: autostart_file_content().to_owned(),
        path: join_path(dir, AUTOSTART_FILE_NAME),
    }
}

/// What came of removing a file.
#[derive(Debug)]
pub enum Removal {
    Removed,
    /// There was none.
    Absent,
    Failed(String),
}

/// Whether the file is gone that started the program at login. One that was not there is gone.
pub fn remove_autostart_file(removal: &Removal) -> (r: Result<(), String>)
    ensures
        match r {
            Ok(_) => *removal is Removed || *removal is Absent,
            Err(e) => *removal matches Removal::Failed(f) && e@ == f@,
        },
{
    match removal {
        Removal::Removed => Ok(()),
        Removal::Absent => Ok(()),
        Removal::Failed(e) => Err(e.clone()),
    }
}

} // verus!
