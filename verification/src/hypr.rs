//! Hyprland's IPC protocol: the sockets of an instance, the requests the shell
//! sends, the replies it reads and the lines of the event socket.
//!
//! Sending and receiving is the caller's part; this module says what to send
//! and how to read what comes back.

use vstd::prelude::*;
use vstd::string::StringExecFns;

use crate::text::{chars_of, decimal_string, push_char, string_of, trimmed};

verus! {

pub type WorkspaceId = i32;

/// `part` appended to the path `base` the way `PathBuf::join` does it on Unix: an
/// absolute `part` replaces `base`, and a separator is added when `base` is non-empty
/// and does not end with one.
pub open spec fn join_path(base: Seq<char>, part: Seq<char>) -> Seq<char> {
    if part.len() > 0 && part[0] == '/' {
        part
    } else if base.len() == 0 || base.last() == '/' {
        base + part
    } else {
        base + seq!['/'] + part
    }
}

/// See [`join_path`].
pub fn join(base: &str, part: &str) -> (r: String)
    ensures
        r@ == join_path(base@, part@),
{
    let b = chars_of(base);
    let p = chars_of(part);
    if p.len() > 0 && p[0] == '/' {
        return part.to_owned();
    }
    let mut r = base.to_owned();
    if !(b.len() == 0 || b[b.len() - 1] == '/') {
        push_char(&mut r, '/');
    }
    r.append(part);
    r
}

/// The Hyprland instance this process runs under: its request and event sockets,
/// `$XDG_RUNTIME_DIR/hypr/$HYPRLAND_INSTANCE_SIGNATURE/.socket.sock` and `.socket2.sock`.
#[derive(Clone, Debug)]
pub struct Instance {
    request: String,
    events: String,
}

impl View for Instance {
    /// The paths of the request socket and of the event socket.
    type V = (Seq<char>, Seq<char>);

    closed spec fn view(&self) -> (Seq<char>, Seq<char>) {
        (self.request@, self.events@)
    }
}

/// The directory of the instance's sockets.
pub open spec fn instance_dir(runtime: Seq<char>, signature: Seq<char>) -> Seq<char> {
    join_path(join_path(runtime, seq!['h', 'y', 'p', 'r']), signature)
}

/// A request to send on a socket, whose whole reply is read back.
#[derive(Clone, Debug, PartialEq, Eq)]
pub struct Request {
    pub socket: String,
    pub command: String,
}

/// How Hyprland's Lua API identifies a workspace. Written as the Lua literal: a number
/// for `Id`, a quoted string for `Name`.
#[derive(Clone, Copy, Debug, PartialEq, Eq)]
pub enum WorkspaceSelector<'a> {
    Id(WorkspaceId),
    /// A workspace string as accepted by the classic `workspace` dispatcher,
    /// such as `special:magic`, `name:web`, `empty`, or `previous`.
    Name(&'a str),
}

/// `c` as written inside a double-quoted Lua string.
pub open spec fn lua_escape(c: char) -> Seq<char> {
    if c == '\\' {
        seq!['\\', '\\']
    } else if c == '"' {
        seq!['\\', '"']
    } else if c == '\n' {
        seq!['\\', 'n']
    } else if c == '\r' {
        seq!['\\', 'r']
    } else {
        seq![c]
    }
}

/// Every character of `s` escaped by [`lua_escape`].
pub open spec fn lua_escape_all(s: Seq<char>) -> Seq<char>
    decreases s.len(),
{
    if s.len() == 0 {
        Seq::empty()
    } else {
        lua_escape_all(s.drop_last()) + lua_escape(s.last())
    }
}

/// The Lua literal of a selector.
pub open spec fn lua_literal(w: WorkspaceSelector) -> Seq<char> {
    match w {
        WorkspaceSelector::Id(id) => crate::text::decimal(id as int),
        WorkspaceSelector::Name(name) => seq!['"'] + lua_escape_all(name@) + seq!['"'],
    }
}

impl<'a> WorkspaceSelector<'a> {
    /// The Lua literal (what `Display` writes).
    pub fn to_lua(&self) -> (r: String)
        ensures
            r@ == lua_literal(*self),
    {
        match self {
            WorkspaceSelector::Id(id) => decimal_string(*id as i64),
            WorkspaceSelector::Name(name) => {
                let mut r = String::new();
                push_char(&mut r, '"');
                for c in it: name.chars()
                    invariant
                        it.seq() == name@,
                        r@ == seq!['"'] + lua_escape_all(it.seq().take(it.index() as int)),
                {
                    proof {
                        assert(it.seq().take(it.index() + 1).drop_last() =~= it.seq().take(
                            it.index() as int,
                        ));
                    }
                    if c == '\\' {
                        push_char(&mut r, '\\');
                        push_char(&mut r, '\\');
                    } else if c == '"' {
                        push_char(&mut r, '\\');
                        push_char(&mut r, '"');
                    } else if c == '\n' {
                        push_char(&mut r, '\\');
                        push_char(&mut r, 'n');
                    } else if c == '\r' {
                        push_char(&mut r, '\\');
                        push_char(&mut r, 'r');
                    } else {
                        push_char(&mut r, c);
                    }
                    assert(r@ =~= seq!['"'] + lua_escape_all(it.seq().take(it.index() + 1)));
                }
                push_char(&mut r, '"');
                assert(name@.take(name@.len() as int) =~= name@);
                r
            },
        }
    }
}

impl Instance {
    /// The instance whose runtime directory is `runtime` and whose signature is
    /// `signature`. Whether its socket exists is for the caller to find out.
    pub fn locate(runtime: &str, signature: &str) -> (r: Instance)
        ensures
            r@.0 == join_path(instance_dir(runtime@, signature@), ".socket.sock"@),
            r@.1 == join_path(instance_dir(runtime@, signature@), ".socket2.sock"@),
    {
        let dir = join(join(runtime, "hypr").as_str(), signature);
        proof {
            reveal_strlit("hypr");
        }
        assert("hypr"@ =~= seq!['h', 'y', 'p', 'r']);
        Instance { request: join(dir.as_str(), ".socket.sock"), events: join(dir.as_str(), ".socket2.sock") }
    }

    /// The request socket.
    pub fn request_socket(&self) -> (r: &str)
        ensures
            r@ == self@.0,
    {
        self.request.as_str()
    }

    /// The event socket.
    pub fn event_socket(&self) -> (r: &str)
        ensures
            r@ == self@.1,
    {
        self.events.as_str()
    }

    /// `command` on the request socket.
    pub fn request(&self, command: &str) -> (r: Request)
        ensures
            r.socket@ == self@.0,
            r.command@ == command@,
    {
        Request { socket: self.request.clone(), command: command.to_owned() }
    }

    /// The request whose JSON reply lists the workspaces.
    pub fn workspaces(&self) -> (r: Request)
        ensures
            r.socket@ == self@.0,
            r.command@ == "j/workspaces"@,
    {
        self.request("j/workspaces")
    }

    /// The request whose JSON reply lists the monitors.
    pub fn monitors(&self) -> (r: Request)
        ensures
            r.socket@ == self@.0,
            r.command@ == "j/monitors"@,
    {
        self.request("j/monitors")
    }

    /// The request that runs a Lua dispatcher expression, e.g. `hl.dsp.window.close()`.
    /// Read its reply with [`dispatch_outcome`].
    pub fn dispatch(&self, dispatcher: &str) -> (r: Request)
        ensures
            r.socket@ == self@.0,
            r.command@ == "dispatch "@ + dispatcher@,
    {
        let mut command = "dispatch ".to_owned();
        command.append(dispatcher);
        self.request(command.as_str())
    }

    /// The request that switches the focused monitor to a workspace.
    pub fn focus_workspace(&self, workspace: &WorkspaceSelector) -> (r: Request)
        ensures
            r.socket@ == self@.0,
            r.command@ == "dispatch "@ + "hl.dsp.focus({ workspace = "@ + lua_literal(*workspace)
                + " })"@,
    {
        let mut dispatcher = "hl.dsp.focus({ workspace = ".to_owned();
        dispatcher.append(workspace.to_lua().as_str());
        dispatcher.append(" })");
        self.dispatch(dispatcher.as_str())
    }
}

/// What a dispatch reply means: `ok`, or the error Hyprland reports, trimmed.
pub fn dispatch_outcome(reply: &str) -> (r: Result<(), String>)
    ensures
        r matches Ok(_) <==> reply@ == "ok"@,
        r matches Err(e) ==> e@ == crate::text::trim(reply@),
{
    let cs = chars_of(reply);
    proof {
        reveal_strlit("ok");
    }
    if cs.len() == 2 && cs[0] == 'o' && cs[1] == 'k' {
        assert(reply@ =~= "ok"@);
        Ok(())
    } else {
        assert(reply@ != "ok"@ ) by {
            if reply@ == "ok"@ {
                assert(cs@.len() == 2 && cs@[0] == 'o' && cs@[1] == 'k');
            }
        }
        Err(trimmed(reply))
    }
}

/// A workspace as `j/workspaces` lists it.
#[derive(Clone, Debug, PartialEq, Eq)]
pub struct Workspace {
    pub id: WorkspaceId,
    pub name: String,
    pub monitor: String,
    pub windows: u16,
}

/// A monitor as `j/monitors` lists it.
#[derive(Clone, Debug, PartialEq, Eq)]
pub struct Monitor {
    pub id: i64,
    pub name: String,
    pub focused: bool,
    pub active_workspace: WorkspaceRef,
}

#[derive(Clone, Debug, PartialEq, Eq)]
pub struct WorkspaceRef {
    pub id: WorkspaceId,
    pub name: String,
}

/// One line of the event socket, `name>>data`.
#[derive(Clone, Debug, PartialEq, Eq)]
pub struct Event {
    pub name: String,
    pub data: String,
}

/// `s` without its trailing `'\n'` and `'\r'` characters.
pub open spec fn strip_line_breaks(s: Seq<char>) -> Seq<char>
    decreases s.len(),
{
    if s.len() > 0 && (s.last() == '\n' || s.last() == '\r') {
        strip_line_breaks(s.drop_last())
    } else {
        s
    }
}

/// Whether `>>` starts at `i` in `s`.
pub open spec fn arrow_at(s: Seq<char>, i: int) -> bool {
    0 <= i && i + 1 < s.len() && s[i] == '>' && s[i + 1] == '>'
}

/// The event that a line of the event socket holds: the text before the first `>>`
/// is its name, the rest its data. Lines without `>>` hold none.
pub open spec fn event_of_line(line: Seq<char>) -> Option<(Seq<char>, Seq<char>)> {
    let s = strip_line_breaks(line);
    if exists|i: int| arrow_at(s, i) {
        let i = choose|i: int| arrow_at(s, i) && forall|k: int| 0 <= k < i ==> !arrow_at(s, k);
        Some((s.take(i), s.skip(i + 2)))
    } else {
        None
    }
}

/// Reads one line of the event socket. See [`event_of_line`].
pub fn parse_event_line(line: &str) -> (r: Option<Event>)
    ensures
        match r {
            Some(e) => event_of_line(line@) == Some((e.name@, e.data@)),
            None => event_of_line(line@) is None,
        },
{
    let cs = chars_of(line);
    let mut e = cs.len();
    assert(cs@.take(e as int) =~= cs@);
    while e > 0 && (cs[e - 1] == '\n' || cs[e - 1] == '\r')
        invariant
            e <= cs@.len(),
            cs@ == line@,
            strip_line_breaks(cs@.take(e as int)) == strip_line_breaks(line@),
        decreases e,
    {
        assert(cs@.take(e as int).drop_last() =~= cs@.take(e - 1));
        e = e - 1;
    }
    let ghost s = cs@.take(e as int);
    assert(strip_line_breaks(s) == s);
    let mut i: usize = 0;
    while e > 0 && i < e - 1
        invariant
            i <= e <= cs@.len(),
            s == cs@.take(e as int),
            s == strip_line_breaks(line@),
            forall|k: int| 0 <= k < i ==> !arrow_at(s, k),
        decreases e - i,
    {
        if cs[i] == '>' && cs[i + 1] == '>' {
            assert(arrow_at(s, i as int));
            let name = string_of(&cs.as_slice()[0..i]);
            let data = string_of(&cs.as_slice()[i + 2..e]);
            proof {
                let j = choose|j: int| arrow_at(s, j) && forall|k: int| 0 <= k < j ==> !arrow_at(s, k);
                assert(j == i) by {
                    if j < i {
                        assert(!arrow_at(s, j));
                    } else if j > i {
                        assert(!arrow_at(s, i as int));
                    }
                }
                assert(name@ =~= s.take(i as int));
                assert(data@ =~= s.skip(i + 2));
            }
            return Some(Event { name, data });
        }
        i = i + 1;
    }
    assert forall|k: int| !arrow_at(s, k) by {
        if 0 <= k < i {
        }
    }
    None
}


/// The event socket line `name>>data` reads back as that event, for a name without
/// `>` and data that does not end with a line break.
pub proof fn law_event_line_round_trip(name: Seq<char>, data: Seq<char>)
    requires
        forall|k: int| 0 <= k < name.len() ==> name[k] != '>',
        data.len() == 0 || (data.last() != '\n' && data.last() != '\r'),
    ensures
        event_of_line(name + seq!['>', '>'] + data + seq!['\n']) == Some((name, data)),
{
    let s = name + seq!['>', '>'] + data;
    let line = s + seq!['\n'];
    assert(line.drop_last() =~= s);
    assert(strip_line_breaks(s) == s) by {
        if data.len() == 0 {
            assert(s.last() == '>');
        } else {
            assert(s.last() == data.last());
        }
    }
    assert(strip_line_breaks(line) == s);
    let n = name.len() as int;
    assert(arrow_at(s, n));
    assert forall|k: int| 0 <= k < n implies !arrow_at(s, k) by {
        assert(s[k] == name[k]);
    }
    let i = choose|i: int| arrow_at(s, i) && forall|k: int| 0 <= k < i ==> !arrow_at(s, k);
    assert(i == n) by {
        if i < n {
            assert(s[i] == name[i]);
        } else if i > n {
            assert(!arrow_at(s, n));
        }
    }
    assert(s.take(n) =~= name);
    assert(s.skip(n + 2) =~= data);
}
/// Reads the body of a double-quoted Lua string, just past its opening quote: the
/// characters it stands for and how many characters it takes up to and with its
/// closing quote. `None` when the string is malformed: unterminated, broken by a raw
/// line break, or holding an escape other than `\\`, `\"`, `\n` and `\r`.
pub open spec fn read_lua_body(t: Seq<char>) -> Option<(Seq<char>, nat)>
    decreases t.len(),
{
    if t.len() == 0 {
        None
    } else if t[0] == '"' {
        Some((Seq::empty(), 1))
    } else if t[0] == '\n' || t[0] == '\r' {
        None
    } else if t[0] == '\\' {
        if t.len() < 2 {
            None
        } else {
            let c = t[1];
            let d = if c == 'n' {
                Some('\n')
            } else if c == 'r' {
                Some('\r')
            } else if c == '\\' || c == '"' {
                Some(c)
            } else {
                None
            };
            match (d, read_lua_body(t.skip(2))) {
                (Some(d), Some((rest, n))) => Some((seq![d] + rest, n + 2)),
                _ => None,
            }
        }
    } else {
        match read_lua_body(t.drop_first()) {
            Some((rest, n)) => Some((seq![t[0]] + rest, n + 1)),
            None => None,
        }
    }
}

proof fn lemma_lua_escape_all_concat(a: Seq<char>, b: Seq<char>)
    ensures
        lua_escape_all(a + b) == lua_escape_all(a) + lua_escape_all(b),
    decreases b.len(),
{
    if b.len() == 0 {
        assert(a + b =~= a);
        assert(lua_escape_all(a) + lua_escape_all(b) =~= lua_escape_all(a));
    } else {
        lemma_lua_escape_all_concat(a, b.drop_last());
        assert((a + b).drop_last() =~= a + b.drop_last());
        assert((a + b).last() == b.last());
    }
}

/// A name written by [`lua_escape_all`] and closed by a quote reads back as that
/// name, the closing quote ending it: Hyprland is handed the workspace name exactly.
pub proof fn law_lua_string_reads_back(name: Seq<char>, rest: Seq<char>)
    ensures
        read_lua_body(lua_escape_all(name) + seq!['"'] + rest) == Some(
            (name, lua_escape_all(name).len() + 1),
        ),
    decreases name.len(),
{
    let e = lua_escape_all(name);
    if name.len() == 0 {
        assert(e =~= Seq::<char>::empty());
        assert((e + seq!['"'] + rest)[0] == '"');
    } else {
        let c = name[0];
        let tail = name.drop_first();
        assert(name =~= seq![c] + tail);
        lemma_lua_escape_all_concat(seq![c], tail);
        assert(seq![c].drop_last() =~= Seq::<char>::empty());
        assert(seq![c].last() == c);
        assert(lua_escape_all(Seq::<char>::empty()) =~= Seq::<char>::empty());
        assert(lua_escape_all(seq![c]) =~= lua_escape(c));
        law_lua_string_reads_back(tail, rest);
        let t = e + seq!['"'] + rest;
        let after = lua_escape_all(tail) + seq!['"'] + rest;
        if c == '\\' || c == '"' || c == '\n' || c == '\r' {
            assert(t =~= lua_escape(c) + after);
            assert(t.skip(2) =~= after);
            assert(t[0] == '\\');
        } else {
            assert(t =~= seq![c] + after);
            assert(t.drop_first() =~= after);
        }
        assert(seq![c] + tail =~= name);
    }
}

/// The literal of a selector by name is a quoted string that reads back as the name.
pub proof fn law_name_literal_reads_back(name: &str)
    ensures
        lua_literal(WorkspaceSelector::Name(name))[0] == '"',
        read_lua_body(lua_literal(WorkspaceSelector::Name(name)).drop_first()) == Some(
            (name@, (lua_literal(WorkspaceSelector::Name(name)).len() - 1) as nat),
        ),
{
    let lit = lua_literal(WorkspaceSelector::Name(name));
    law_lua_string_reads_back(name@, Seq::empty());
    assert(lit.drop_first() =~= lua_escape_all(name@) + seq!['"'] + Seq::<char>::empty());
}
} // verus!
