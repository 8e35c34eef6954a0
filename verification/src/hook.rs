//! What an agent's hooks report.
//!
//! The companion process that an agent runs for a hook flattens the hook's own
//! payload into one message and sends it on.

use vstd::prelude::*;

use crate::frame;
use crate::text;

verus! {

/// One hook event. All but the event may be missing: what an agent sends changes
/// from version to version.
#[derive(Debug)]
pub struct HookMessage {
    /// The short name of the event (`session-start`, `stop` and so on).
    pub event: String,
    /// The agent's own id for the session. It changes under compaction.
    pub session_id: Option<String>,
    /// The session's working directory. It stays when the id changes.
    pub cwd: Option<String>,
    pub transcript_path: Option<String>,
    /// The agent's own name for the event.
    pub hook_event_name: Option<String>,
    pub source: Option<String>,
    pub message: Option<String>,
    pub notification_type: Option<String>,
    pub stop_hook_active: Option<bool>,
    pub last_assistant_message: Option<String>,
    /// The tool that the agent ran.
    pub tool_name: Option<String>,
    /// The file that a file tool worked on.
    pub tool_file_path: Option<String>,
    /// The command that a shell tool ran.
    pub tool_command: Option<String>,
    /// The token that the session was spawned with.
    pub spawn_token: Option<String>,
}

impl Default for HookMessage {
    fn default() -> (r: Self)
        ensures
            r.event@.len() == 0,
            r.session_id is None,
            r.cwd is None,
            r.transcript_path is None,
            r.hook_event_name is None,
            r.source is None,
            r.message is None,
            r.notification_type is None,
            r.stop_hook_active is None,
            r.last_assistant_message is None,
            r.tool_name is None,
            r.tool_file_path is None,
            r.tool_command is None,
            r.spawn_token is None,
    {
        HookMessage {
            event: String::new(),
            session_id: None,
            cwd: None,
            transcript_path: None,
            hook_event_name: None,
            source: None,
            message: None,
            notification_type: None,
            stop_hook_active: None,
            last_assistant_message: None,
            tool_name: None,
            tool_file_path: None,
            tool_command: None,
            spawn_token: None,
        }
    }
}

/// What is read of a hook's payload.
#[derive(Debug)]
pub struct HookInput {
    pub session_id: Option<String>,
    pub cwd: Option<String>,
    pub transcript_path: Option<String>,
    pub hook_event_name: Option<String>,
    pub source: Option<String>,
    pub message: Option<String>,
    pub notification_type: Option<String>,
    pub stop_hook_active: Option<bool>,
    pub last_assistant_message: Option<String>,
    pub tool_name: Option<String>,
    pub tool_input: Option<ToolInput>,
}

/// What is read of a tool's arguments.
#[derive(Debug)]
pub struct ToolInput {
    pub file_path: Option<String>,
    pub command: Option<String>,
}

/// What is left of the command line once `args` were read, with what was read of
/// it before.
pub open spec fn read_args(
    args: Seq<Seq<char>>,
    event: Option<Seq<char>>,
    token: Option<Seq<char>>,
) -> (Option<Seq<char>>, Option<Seq<char>>)
    decreases args.len(),
{
    if args.len() == 0 {
        (event, token)
    } else {
        let arg = args[0];
        let rest = args.skip(1);
        if arg == "--spawn-token"@ {
            if rest.len() == 0 {
                (event, None)
            } else {
                read_args(rest.skip(1), event, Some(rest[0]))
            }
        } else if let Some(value) = text::strip_prefix(arg, "--spawn-token="@) {
            read_args(rest, event, Some(value))
        } else if arg.len() > 0 && arg[0] == '-' {
            read_args(rest, event, token)
        } else if event is None {
            read_args(rest, Some(arg), token)
        } else {
            read_args(rest, event, token)
        }
    }
}

/// Read the command line: the event, and the spawn token in either spelling.
///
/// There is nothing to report where there is no event. A flag that is not known
/// is passed over, since refusing it would disturb the session.
pub fn parse_args(args: &[String]) -> (r: Option<(String, Option<String>)>)
    ensures
        ({
            let (event, token) = read_args(text::views(args@), None, None);
            match event {
                Some(e) if e.len() > 0 => r matches Some((name, t)) && name@ == e && (match t {
                    Some(v) => token == Some(v@),
                    None => token is None,
                }),
                _ => r is None,
            }
        }),
{
    let ghost all = text::views(args@);
    let mut event: Option<String> = None;
    let mut token: Option<String> = None;
    let mut i: usize = 0;
    assert(all.skip(0) =~= all);
    while i < args.len()
        invariant
            i <= args.len(),
            all == text::views(args@),
            read_args(all.skip(i as int), text::maybe(event), text::maybe(token)) == read_args(all, None, None),
        decreases args.len() - i,
    {
        let arg = &args[i];
        proof {
            assert(all.skip(i as int)[0] == arg@);
            assert(all.skip(i as int).skip(1) =~= all.skip(i + 1));
            if i + 1 < args.len() {
                assert(all.skip(i as int).skip(1).skip(1) =~= all.skip(i + 2));
                assert(all.skip(i as int).skip(1)[0] == args@[i + 1]@);
            }
            reveal_strlit("-");
        }
        if text::same(arg, "--spawn-token") {
            if i + 1 < args.len() {
                token = Some(args[i + 1].clone());
                i = i + 2;
            } else {
                token = None;
                i = i + 1;
            }
        } else if let Some(value) = text::without_prefix(arg, "--spawn-token=") {
            token = Some(value);
            i = i + 1;
        } else if text::has_prefix(arg, "-") {
            proof {
                assert(arg@.take(1)[0] == "-"@[0]);
            }
            i = i + 1;
        } else {
            proof {
                if arg@.len() > 0 && arg@[0] == '-' {
                    assert(arg@.take(1) =~= "-"@);
                }
            }
            if event.is_none() {
                event = Some(arg.clone());
            }
            i = i + 1;
        }
    }
    assert(all.skip(i as int).len() == 0);
    match event {
        Some(e) => if e.as_str().is_empty() {
            None
        } else {
            Some((e, token))
        },
        None => None,
    }
}

/// The message that is sent for a hook. A token on the command line goes before
/// the one in the environment.
pub fn hook_message(
    event: String,
    token: Option<String>,
    env_token: Option<String>,
    input: HookInput,
) -> (r: HookMessage)
    ensures
        r == (HookMessage {
            event,
            session_id: input.session_id,
            cwd: input.cwd,
            transcript_path: input.transcript_path,
            hook_event_name: input.hook_event_name,
            source: input.source,
            message: input.message,
            notification_type: input.notification_type,
            stop_hook_active: input.stop_hook_active,
            last_assistant_message: input.last_assistant_message,
            tool_name: input.tool_name,
            tool_file_path: match input.tool_input {
                Some(t) => t.file_path,
                None => None,
            },
            tool_command: match input.tool_input {
                Some(t) => t.command,
                None => None,
            },
            spawn_token: if token is Some {
                token
            } else {
                env_token
            },
        }),
{
    let (tool_file_path, tool_command) = match input.tool_input {
        Some(t) => (t.file_path, t.command),
        None => (None, None),
    };
    let spawn_token = match token {
        Some(t) => Some(t),
        None => env_token,
    };
    HookMessage {
        event,
        session_id: input.session_id,
        cwd: input.cwd,
        transcript_path: input.transcript_path,
        hook_event_name: input.hook_event_name,
        source: input.source,
        message: input.message,
        notification_type: input.notification_type,
        stop_hook_active: input.stop_hook_active,
        last_assistant_message: input.last_assistant_message,
        tool_name: input.tool_name,
        tool_file_path,
        tool_command,
        spawn_token,
    }
}

/// A message's bytes as they go over the wire. The receiver, not the sender,
/// refuses one that is too long.
pub fn hook_frame(payload: &[u8]) -> (r: Vec<u8>)
    requires
        payload.len() <= u32::MAX,
    ensures
        r@ == frame::framed(payload@),
{
    frame::put(payload)
}

/// A token is given by its flag and the word behind it, or by the flag, an equals sign
/// and the token in one word; the one that comes last counts. The first word that is no
/// flag is the event. Other flags, and further words, are passed over.
pub proof fn how_arguments_are_read(
    word: Seq<char>,
    rest: Seq<Seq<char>>,
    event: Option<Seq<char>>,
    token: Option<Seq<char>>,
)
    ensures
        read_args(seq![], event, token) == (event, token),
        read_args(seq!["--spawn-token"@, word] + rest, event, token) == read_args(
            rest,
            event,
            Some(word),
        ),
        read_args(seq!["--spawn-token"@], event, token) == (event, None::<Seq<char>>),
        read_args(seq!["--spawn-token="@ + word] + rest, event, token) == read_args(
            rest,
            event,
            Some(word),
        ),
        word.len() == 0 || word[0] != '-' ==> read_args(seq![word] + rest, event, token)
            == read_args(
            rest,
            if event is None {
                Some(word)
            } else {
                event
            },
            token,
        ),
        word.len() > 0 && word[0] == '-' && word != "--spawn-token"@
            && !"--spawn-token="@.is_prefix_of(word) ==> read_args(seq![word] + rest, event, token)
            == read_args(rest, event, token),
{
    reveal_strlit("--spawn-token");
    reveal_strlit("--spawn-token=");
    let flag = "--spawn-token"@;
    let long = "--spawn-token="@;
    let a = seq![flag, word] + rest;
    assert(a.skip(1).skip(1) =~= rest);
    assert(a.skip(1)[0] == word);
    let b = seq![flag];
    assert(b.skip(1).len() == 0);
    let one = long + word;
    let c = seq![one] + rest;
    assert(c.skip(1) =~= rest);
    assert(one.take(14) =~= long);
    assert(one.skip(14) =~= word);
    assert(one.len() >= 14);
    let d = seq![word] + rest;
    assert(d.skip(1) =~= rest);
    if long.is_prefix_of(word) {
        assert(word.take(14)[0] == '-');
    }
}

} // verus!
