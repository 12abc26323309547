//! Logging in, restoring a session, and where its data is kept.

use vstd::prelude::*;
use crate::directory::{localpart, localpart_of};
use crate::json::{json_str_at, json_string, text_of};
use crate::matrix::command::MatrixCommand;
use crate::matrix::event::MatrixEvent;
use crate::matrix::ids::{is_server_name, valid_server_name};

use crate::text::{
    chars_of, contains, same, starts_with, str_contains, str_starts_with, string_of, trim_prefixes, trimmed_prefixes,
};

verus! {

/// The name under which the session stands in the keyring. The setup wizard has
/// one of its own, so that it never touches the real session.
pub fn keyring_app_attr(wizard: bool) -> (r: &'static str)
    ensures
        r@ == (if wizard {
            "me.ramkrishna.hikyaku.wizard"@
        } else {
            "me.ramkrishna.hikyaku"@
        }),
{
    if wizard {
        "me.ramkrishna.hikyaku.wizard"
    } else {
        "me.ramkrishna.hikyaku"
    }
}

/// A character as it may stand in the name of the database directory.
pub open spec fn dir_char(c: char) -> char {
    if c == '/' || c == '\\' || c == ':' || c == '?' || c == '#' {
        '_'
    } else {
        c
    }
}

/// The name of the database directory of a homeserver: its address without the
/// scheme, with the characters replaced that a path component cannot hold.
pub open spec fn db_dir(homeserver: Seq<char>) -> Seq<char> {
    trim_prefixes(trim_prefixes(homeserver, "https://"@), "http://"@).map_values(
        |c: char| dir_char(c),
    )
}

/// The name of the database directory of a homeserver.
pub fn db_dir_name(homeserver: &str) -> (r: String)
    ensures
        r@ == db_dir(homeserver@),
        !r@.contains('/'),
{
    proof {
        reveal_strlit("https://");
        reveal_strlit("http://");
    }
    let bare = trimmed_prefixes(
        trimmed_prefixes(chars_of(homeserver), "https://"),
        "http://",
    );
    let mut out: Vec<char> = Vec::new();
    let mut i: usize = 0;
    while i < bare.len()
        invariant
            i <= bare@.len(),
            out@.len() == i,
            forall|j: int| 0 <= j < i ==> (#[trigger] out@[j]) == dir_char(bare@[j]),
        decreases bare@.len() - i,
    {
        let c: char = bare[i];
        out.push(
            if c == '/' || c == '\\' || c == ':' || c == '?' || c == '#' {
                '_'
            } else {
                c
            },
        );
        i = i + 1;
    }
    assert(out@ =~= db_dir(homeserver@));
    string_of(&out)
}

/// Whether the data of an earlier version is moved to where it belongs now: when
/// it is there, and nothing is in its new place.
pub fn needs_migration(old_exists: bool, new_exists: bool) -> (r: bool)
    ensures
        r == (old_exists && !new_exists),
{
    old_exists && !new_exists
}

/// How a homeserver is reached.
#[derive(Debug)]
pub enum Homeserver {
    /// By this address.
    Url { url: String },
    /// By a server name, which is looked up.
    Name { name: String },
}

/// Whether a text is an address with a scheme for the web.
pub open spec fn is_web_url(s: Seq<char>) -> bool {
    starts_with(s, "http://"@) || starts_with(s, "https://"@)
}

/// How a homeserver that the user typed is reached: a full address as it is,
/// anything else as a server name. None when it is neither.
pub fn homeserver_target(homeserver: &str) -> (r: Option<Homeserver>)
    ensures
        match r {
            Some(Homeserver::Url { url }) => is_web_url(homeserver@) && url@ == homeserver@,
            Some(Homeserver::Name { name }) => !is_web_url(homeserver@) && valid_server_name(
                homeserver@,
            ) && name@ == homeserver@,
            None => !is_web_url(homeserver@) && !valid_server_name(homeserver@),
        },
{
    if str_starts_with(homeserver, "http://") || str_starts_with(homeserver, "https://") {
        Some(Homeserver::Url { url: homeserver.to_owned() })
    } else if is_server_name(homeserver) {
        Some(Homeserver::Name { name: homeserver.to_owned() })
    } else {
        None
    }
}

/// Whether a text is an absolute URL.
pub uninterp spec fn valid_url(s: Seq<char>) -> bool;

/// `reqwest::Url::parse`: whether it accepts the text is a function of the text.
#[verifier::external_body]
fn is_url(s: &str) -> (r: bool)
    ensures
        r == valid_url(s@),
{
    reqwest::Url::parse(s).is_ok()
}

/// How the homeserver of a stored session is reached: by the address that was
/// stored with it, which needs no lookup, or else by its name. None when neither
/// is valid.
pub fn restore_target(homeserver: &str, stored_url: Option<&str>) -> (r: Option<Homeserver>)
    ensures
        ({
            let by_url = stored_url is Some && valid_url(stored_url->0@);
            match r {
                Some(Homeserver::Url { url }) => by_url && url@ == stored_url->0@,
                Some(Homeserver::Name { name }) => !by_url && valid_server_name(homeserver@) && name@
                    == homeserver@,
                None => !by_url && !valid_server_name(homeserver@),
            }
        }),
{
    if let Some(url) = stored_url {
        if is_url(url) {
            return Some(Homeserver::Url { url: url.to_owned() });
        }
    }
    if is_server_name(homeserver) {
        Some(Homeserver::Name { name: homeserver.to_owned() })
    } else {
        None
    }
}

/// Whether an error says that the server refused the access token. Only then is
/// the stored session thrown away: without a network it is kept.
pub fn is_auth_error(error: &str) -> (r: bool)
    ensures
        r == (contains(error@, "401"@) || contains(error@, "403"@) || contains(
            error@,
            "Unknown access token"@,
        )),
{
    str_contains(error, "401") || str_contains(error, "403") || str_contains(
        error,
        "Unknown access token",
    )
}

/// Whether the stored session has to be stored again, because the homeserver was
/// found at another address.
pub fn needs_new_url(stored_url: Option<&str>, resolved: &str) -> (r: bool)
    ensures
        r == !(stored_url is Some && stored_url->0@ == resolved@),
{
    match stored_url {
        Some(u) => !same(u, resolved),
        None => true,
    }
}

/// What is reported when a session was restored. The local part of the user id
/// stands in for the name until it is known.
pub fn restored(user_id: Option<String>) -> (r: MatrixEvent)
    ensures
        ({
            let id = match user_id {
                Some(u) => u@,
                None => Seq::empty(),
            };
            r matches MatrixEvent::LoginSuccess {
                display_name,
                user_id: u,
                from_registration,
                is_fresh_login,
            } && display_name@ == localpart(id) && u@ == id && !from_registration
                && !is_fresh_login
        }),
{
    let id: String = match user_id {
        Some(u) => u,
        None => String::new(),
    };
    MatrixEvent::LoginSuccess {
        display_name: localpart_of(&id),
        user_id: id,
        from_registration: false,
        is_fresh_login: false,
    }
}

/// What to do with a command while nobody is logged in.
#[derive(Debug)]
pub enum LoginStep {
    Login { homeserver: String, username: String, password: String },
    Register { homeserver: String, username: String, password: String, display_name: String },
    Ignore,
}

/// Decides what to do with a command while nobody is logged in: everything but
/// logging in and registering is ignored.
pub fn login_step(command: MatrixCommand) -> (r: LoginStep)
    ensures
        match command {
            MatrixCommand::Login { homeserver, username, password } => r == (LoginStep::Login {
                homeserver,
                username,
                password,
            }),
            MatrixCommand::Register { homeserver, username, password, display_name, email } => r
                == (LoginStep::Register { homeserver, username, password, display_name }),
            _ => r is Ignore,
        },
{
    match command {
        MatrixCommand::Login { homeserver, username, password } => LoginStep::Login {
            homeserver,
            username,
            password,
        },
        MatrixCommand::Register { homeserver, username, password, display_name, .. } =>
            LoginStep::Register { homeserver, username, password, display_name },
        _ => LoginStep::Ignore,
    }
}

fn success(name: &str, user_id: Option<String>, from_registration: bool) -> (r: MatrixEvent)
    ensures
        logged_in(r, name@, text_of(user_id), from_registration),
{
    let id: String = match user_id {
        Some(u) => u,
        None => String::new(),
    };
    MatrixEvent::LoginSuccess {
        display_name: name.to_owned(),
        user_id: id,
        from_registration,
        is_fresh_login: true,
    }
}

/// Whether the event reports a fresh login.
pub open spec fn logged_in(
    event: MatrixEvent,
    name: Seq<char>,
    id: Option<Seq<char>>,
    registered: bool,
) -> bool {
    event matches MatrixEvent::LoginSuccess {
        display_name,
        user_id,
        from_registration,
        is_fresh_login,
    } && display_name@ == name && user_id@ == (match id {
        Some(u) => u,
        None => Seq::empty(),
    }) && from_registration == registered && is_fresh_login
}

/// What is reported about a login. The flag says whether the data of the
/// homeserver is to be cleaned up.
pub fn finish_login(username: &str, outcome: Result<Option<String>, String>) -> (r: (
    MatrixEvent,
    bool,
))
    ensures
        match outcome {
            Ok(id) => logged_in(r.0, username@, text_of(id), false) && !r.1,
            Err(why) => r.0 == (MatrixEvent::LoginFailed { error: why }) && r.1,
        },
{
    match outcome {
        Ok(id) => (success(username, id, false), false),
        Err(error) => (MatrixEvent::LoginFailed { error }, true),
    }
}

/// What is reported about a registration. Without a display name the user goes by
/// the user name.
pub fn finish_registration(
    username: &str,
    display_name: &str,
    outcome: Result<Option<String>, String>,
) -> (r: MatrixEvent)
    ensures
        match outcome {
            Ok(id) => logged_in(
                r,
                (if display_name@.len() == 0 {
                    username@
                } else {
                    display_name@
                }),
                text_of(id),
                true,
            ),
            Err(why) => r == (MatrixEvent::RegistrationFailed { error: why }),
        },
{
    match outcome {
        Ok(id) => success(
            if display_name.is_empty() {
                username
            } else {
                display_name
            },
            id,
            true,
        ),
        Err(error) => MatrixEvent::RegistrationFailed { error },
    }
}

/// The name of the first device of a new account.
pub fn device_name(display_name: &str) -> (r: String)
    ensures
        r@ == (if display_name@.len() == 0 {
            "Hikyaku"@
        } else {
            display_name@
        }),
{
    if display_name.is_empty() {
        "Hikyaku".to_owned()
    } else {
        display_name.to_owned()
    }
}

/// What a server answers to a registration that needs another step.
pub struct RegistrationAnswer {
    /// The session of a well-formed answer, which may be missing in it.
    pub stages: Option<Option<String>>,
    /// The status and the body of any other answer.
    pub status: Option<u16>,
    pub body: Option<String>,
}

/// How a registration goes on.
#[derive(Debug)]
pub enum RegistrationStep {
    /// It is tried again, in this session.
    Retry { session: Option<String> },
    /// It failed.
    Fail,
}

/// Decides how a registration goes on after the first answer. Some servers leave
/// out a part of the answer, so that the session has to be read from the body.
pub fn registration_step(answer: &RegistrationAnswer) -> (r: RegistrationStep)
    ensures
        match answer.stages {
            Some(session) => r == (RegistrationStep::Retry { session }),
            None => {
                let found = if answer.status == Some(401u16) && answer.body is Some {
                    json_string(answer.body->0@, "/session"@)
                } else {
                    None
                };
                match r {
                    RegistrationStep::Retry { session } => found is Some && text_of(session)
                        == found,
                    RegistrationStep::Fail => found is None,
                }
            },
        },
{
    match &answer.stages {
        Some(session) => RegistrationStep::Retry {
            session: crate::matrix::info::clone_option(session),
        },
        None => {
            if let Some(401) = answer.status {
                if let Some(body) = &answer.body {
                    if let Some(session) = json_str_at(body, "/session") {
                        return RegistrationStep::Retry { session: Some(session) };
                    }
                }
            }
            RegistrationStep::Fail
        },
    }
}

/// What to do with a command while somebody is logged in.
#[derive(Debug, Clone, Copy, PartialEq, Eq, Structural)]
pub enum LoopStep {
    /// Nothing.
    Ignore,
    /// Carry it out, and stop a summary that is being written first if there is
    /// one.
    Run { stop_preview: bool },
    /// Stop, after a read receipt that is under way has been sent if there is one.
    /// With `tell_sync` the sync is told to stop as well.
    Stop { await_receipt: bool, tell_sync: bool },
}

/// What is under way while commands are carried out.
pub struct CommandLoop {
    /// A read receipt was sent.
    pub receipt: bool,
    /// A summary is being written.
    pub preview: bool,
}

/// What to do with a command.
pub open spec fn loop_step(s: CommandLoop, command: MatrixCommand) -> LoopStep {
    match command {
        MatrixCommand::Login { .. } | MatrixCommand::Register { .. } => LoopStep::Ignore,
        MatrixCommand::FetchRoomPreview { .. } | MatrixCommand::CancelRoomPreview => LoopStep::Run {
            stop_preview: s.preview,
        },
        MatrixCommand::Shutdown => LoopStep::Stop { await_receipt: s.receipt, tell_sync: true },
        MatrixCommand::Logout => LoopStep::Stop { await_receipt: false, tell_sync: false },
        _ => LoopStep::Run { stop_preview: false },
    }
}

/// What is under way after a command.
pub open spec fn loop_next(s: CommandLoop, command: MatrixCommand) -> CommandLoop {
    match command {
        MatrixCommand::MarkRead { .. } => CommandLoop { receipt: true, ..s },
        MatrixCommand::FetchRoomPreview { .. } => CommandLoop { preview: true, ..s },
        MatrixCommand::CancelRoomPreview => CommandLoop { preview: false, ..s },
        MatrixCommand::Shutdown => CommandLoop { receipt: false, ..s },
        _ => s,
    }
}

/// What is under way after the first `n` commands.
pub open spec fn loop_after(s: CommandLoop, commands: Seq<MatrixCommand>, n: int) -> CommandLoop
    decreases n,
{
    if n <= 0 {
        s
    } else {
        loop_next(loop_after(s, commands, n - 1), commands[n - 1])
    }
}

impl CommandLoop {
    pub fn new() -> (r: Self)
        ensures
            !r.receipt && !r.preview,
    {
        CommandLoop { receipt: false, preview: false }
    }

    /// Decides what to do with a command. A second login is ignored, a new summary
    /// replaces one that is being written, and the last read receipt is waited for
    /// before the program closes.
    pub fn step(&mut self, command: &MatrixCommand) -> (r: LoopStep)
        ensures
            r == loop_step(*old(self), *command),
            *final(self) == loop_next(*old(self), *command),
    {
        match command {
            MatrixCommand::Login { .. } => LoopStep::Ignore,
            MatrixCommand::Register { .. } => LoopStep::Ignore,
            MatrixCommand::MarkRead { .. } => {
                self.receipt = true;
                LoopStep::Run { stop_preview: false }
            },
            MatrixCommand::FetchRoomPreview { .. } => {
                let stop_preview: bool = self.preview;
                self.preview = true;
                LoopStep::Run { stop_preview }
            },
            MatrixCommand::CancelRoomPreview => {
                let stop_preview: bool = self.preview;
                self.preview = false;
                LoopStep::Run { stop_preview }
            },
            MatrixCommand::Shutdown => {
                let await_receipt: bool = self.receipt;
                self.receipt = false;
                LoopStep::Stop { await_receipt, tell_sync: true }
            },
            MatrixCommand::Logout => LoopStep::Stop { await_receipt: false, tell_sync: false },
            _ => LoopStep::Run { stop_preview: false },
        }
    }
}

proof fn lemma_receipt_stays(s: CommandLoop, commands: Seq<MatrixCommand>, i: int, n: int)
    requires
        0 <= i < n <= commands.len(),
        commands[i] is MarkRead,
        forall|j: int| i <= j < n ==> !((#[trigger] commands[j]) is Shutdown),
    ensures
        loop_after(s, commands, n).receipt,
    decreases n,
{
    if i < n - 1 {
        lemma_receipt_stays(s, commands, i, n - 1);
    }
    assert(!(commands[n - 1] is Shutdown));
}

/// A read receipt that was asked for is waited for when the program closes,
/// whatever was asked for in between.
pub proof fn law_receipt_is_awaited(s: CommandLoop, commands: Seq<MatrixCommand>, i: int)
    requires
        0 <= i < commands.len(),
        commands[i] is MarkRead,
        forall|j: int| i <= j < commands.len() ==> !((#[trigger] commands[j]) is Shutdown),
    ensures
        loop_step(loop_after(s, commands, commands.len() as int), MatrixCommand::Shutdown)
            == (LoopStep::Stop { await_receipt: true, tell_sync: true }),
{
    lemma_receipt_stays(s, commands, i, commands.len() as int);
}

/// Before a summary is begun, and when it is called off, the one that was begun
/// before is stopped, unless that one has been called off.
pub proof fn law_one_summary_at_a_time(
    s: CommandLoop,
    first: MatrixCommand,
    between: MatrixCommand,
    second: MatrixCommand,
)
    requires
        first is FetchRoomPreview,
        second is FetchRoomPreview || second is CancelRoomPreview,
    ensures
        loop_step(loop_next(s, first), second) == (LoopStep::Run { stop_preview: true }),
        !(between is CancelRoomPreview) ==> loop_step(
            loop_next(loop_next(s, first), between),
            second,
        ) == (LoopStep::Run { stop_preview: true }),
        between is CancelRoomPreview ==> loop_step(
            loop_next(loop_next(s, first), between),
            second,
        ) == (LoopStep::Run { stop_preview: false }),
{
}

/// The database directory of a homeserver is named by its host, whichever way its
/// address is written; a port is set off by an underscore.
pub proof fn law_directory_is_named_by_host(host: Seq<char>, port: Seq<char>)
    requires
        forall|i: int|
            0 <= i < host.len() ==> (#[trigger] host[i]) != '/' && host[i] != ':' && host[i] != '\\'
                && host[i] != '?' && host[i] != '#',
        forall|i: int|
            0 <= i < port.len() ==> (#[trigger] port[i]) != '/' && port[i] != ':' && port[i] != '\\'
                && port[i] != '?' && port[i] != '#',
    ensures
        db_dir(host) == host,
        db_dir("https://"@ + host) == host,
        db_dir("http://"@ + host) == host,
        db_dir("https://"@ + host + seq![':'] + port) == host + seq!['_'] + port,
{
    reveal_strlit("https://");
    reveal_strlit("http://");
    let secure = "https://"@;
    let plain = "http://"@;
    assert(secure.len() == 8 && secure[5] == ':' && secure[7] == '/' && secure[4] == 's');
    assert(plain.len() == 7 && plain[4] == ':' && plain[6] == '/');
    let whole = host + seq![':'] + port;
    assert(!starts_with(host, secure) && !starts_with(host, plain)) by {
        if starts_with(host, secure) {
            assert(host.take(8)[5] == secure[5]);
            assert(host[5] == ':');
        }
        if starts_with(host, plain) {
            assert(host.take(7)[4] == plain[4]);
            assert(host[4] == ':');
        }
    }
    assert(!starts_with(whole, secure) && !starts_with(whole, plain)) by {
        if starts_with(whole, secure) {
            assert(whole.take(8)[7] == secure[7]);
            assert(whole[7] == '/');
        }
        if starts_with(whole, plain) {
            assert(whole.take(7)[6] == plain[6]);
            assert(whole[6] == '/');
        }
    }
    assert((secure + host).take(8) == secure);
    assert((secure + host).skip(8) == host);
    assert(secure + host + seq![':'] + port == secure + whole);
    assert((secure + whole).take(8) == secure);
    assert((secure + whole).skip(8) == whole);
    assert((plain + host).take(7) == plain);
    assert((plain + host).skip(7) == host);
    assert(!starts_with(plain + host, secure)) by {
        if starts_with(plain + host, secure) {
            assert((plain + host).take(8)[4] == secure[4]);
            assert((plain + host)[4] == ':');
        }
    }
    reveal_with_fuel(trim_prefixes, 2);
    assert(host.map_values(|c: char| dir_char(c)) == host);
    assert(whole.map_values(|c: char| dir_char(c)) == host + seq!['_'] + port);
}

/// A second login is ignored and logging out stops everything at once; no other
/// command stops the program but closing it.
pub proof fn law_what_stops_the_program(s: CommandLoop, command: MatrixCommand)
    ensures
        command is Login || command is Register ==> loop_step(s, command) is Ignore,
        loop_step(s, command) is Stop <==> command is Shutdown || command is Logout,
        command is Logout ==> loop_step(s, command) == (LoopStep::Stop {
            await_receipt: false,
            tell_sync: false,
        }),
        command is SendMessage || command is SelectRoom || command is MarkRead ==> loop_step(
            s,
            command,
        ) == (LoopStep::Run { stop_preview: false }),
{
}

/// An address is one that begins with a scheme of the web; a bare server name is
/// none.
pub proof fn law_addresses_have_a_scheme(host: Seq<char>)
    requires
        !host.contains('/'),
    ensures
        is_web_url("https://"@ + host),
        is_web_url("http://"@ + host),
        !is_web_url(host),
{
    reveal_strlit("https://");
    reveal_strlit("http://");
    let secure = "https://"@;
    let plain = "http://"@;
    assert(secure.len() == 8 && secure[7] == '/' && plain.len() == 7 && plain[6] == '/');
    assert((secure + host).subrange(0, 8) == secure);
    assert((plain + host).subrange(0, 7) == plain);
    if starts_with(host, secure) {
        assert(host.subrange(0, 8)[7] == '/');
        assert(host.contains(host[7]));
    }
    if starts_with(host, plain) {
        assert(host.subrange(0, 7)[6] == '/');
        assert(host.contains(host[6]));
    }
}

/// A login that is reported is fresh, and tells the name, the id, and whether the
/// account is new.
pub proof fn law_logins_tell_the_user(
    event: MatrixEvent,
    name: Seq<char>,
    id: Seq<char>,
    registered: bool,
)
    requires
        logged_in(event, name, Some(id), registered),
    ensures
        event is LoginSuccess,
        event->LoginSuccess_display_name@ == name,
        event->LoginSuccess_user_id@ == id,
        event->LoginSuccess_from_registration == registered,
        event->LoginSuccess_is_fresh_login,
{
}

/// A stored address that is valid needs no lookup; without one the name of the
/// homeserver is looked up, and nothing is done where that is no name either.
pub proof fn law_stored_address_needs_no_lookup(
    homeserver: &str,
    stored_url: Option<&str>,
    target: Option<Homeserver>,
)
    requires
        call_ensures(restore_target, (homeserver, stored_url), target),
    ensures
        stored_url is Some && valid_url(stored_url->0@) ==> target is Some && target->0 is Url
            && target->0->url@ == stored_url->0@,
        (stored_url is None || !valid_url(stored_url->0@)) && valid_server_name(homeserver@)
            ==> target is Some && target->0 is Name && target->0->name@ == homeserver@,
        (stored_url is None || !valid_url(stored_url->0@)) && !valid_server_name(homeserver@)
            ==> target is None,
{
}

/// A new account goes by the name that was chosen for it, or else by its user name.
pub proof fn law_new_accounts_are_named(
    username: &str,
    display_name: &str,
    id: Option<String>,
    event: MatrixEvent,
)
    requires
        call_ensures(finish_registration, (username, display_name, Ok(id)), event),
    ensures
        event is LoginSuccess,
        event->LoginSuccess_from_registration,
        display_name@.len() > 0 ==> event->LoginSuccess_display_name@ == display_name@,
        display_name@.len() == 0 ==> event->LoginSuccess_display_name@ == username@,
        id is Some ==> event->LoginSuccess_user_id@ == id->0@,
{
}

/// A session is thrown away only where the server refuses its token.
pub proof fn law_only_refusals_end_a_session(error: &str, refused: bool)
    requires
        call_ensures(is_auth_error, (error,), refused),
    ensures
        contains(error@, "401"@) ==> refused,
        contains(error@, "403"@) ==> refused,
        contains(error@, "Unknown access token"@) ==> refused,
        !contains(error@, "401"@) && !contains(error@, "403"@) && !contains(
            error@,
            "Unknown access token"@,
        ) ==> !refused,
{
}

} // verus!
