use shell::hypr::{dispatch_outcome, join, parse_event_line, Instance, WorkspaceSelector};

fn instance() -> Instance {
    Instance::locate("/run/user/1000", "abc_123")
}

#[test]
fn sockets_live_under_the_signature() {
    let i = instance();
    assert_eq!(i.request_socket(), "/run/user/1000/hypr/abc_123/.socket.sock");
    assert_eq!(i.event_socket(), "/run/user/1000/hypr/abc_123/.socket2.sock");
}

#[test]
fn join_follows_path_rules() {
    assert_eq!(join("/a", "b"), "/a/b");
    assert_eq!(join("/a/", "b"), "/a/b");
    assert_eq!(join("", "b"), "b");
    assert_eq!(join("/a", "/b"), "/b");
}

#[test]
fn json_requests() {
    let i = instance();
    let w = i.workspaces();
    assert_eq!(w.socket, "/run/user/1000/hypr/abc_123/.socket.sock");
    assert_eq!(w.command, "j/workspaces");
    assert_eq!(i.monitors().command, "j/monitors");
}

#[test]
fn dispatch_request_and_reply() {
    let i = instance();
    assert_eq!(i.dispatch("hl.dsp.window.close()").command, "dispatch hl.dsp.window.close()");
    assert_eq!(dispatch_outcome("ok"), Ok(()));
    assert_eq!(dispatch_outcome("  no such dispatcher \n"), Err("no such dispatcher".to_string()));
    assert_eq!(dispatch_outcome("ok\n"), Err("ok".to_string()));
}

#[test]
fn focus_workspace_by_id_and_by_name() {
    let i = instance();
    assert_eq!(
        i.focus_workspace(&WorkspaceSelector::Id(3)).command,
        "dispatch hl.dsp.focus({ workspace = 3 })"
    );
    assert_eq!(
        i.focus_workspace(&WorkspaceSelector::Id(-98)).command,
        "dispatch hl.dsp.focus({ workspace = -98 })"
    );
    assert_eq!(
        i.focus_workspace(&WorkspaceSelector::Name("special:magic")).command,
        "dispatch hl.dsp.focus({ workspace = \"special:magic\" })"
    );
}

#[test]
fn names_are_escaped_as_lua_strings() {
    assert_eq!(WorkspaceSelector::Name("a\"b\\c\nd\re").to_lua(), "\"a\\\"b\\\\c\\nd\\re\"");
    assert_eq!(WorkspaceSelector::Id(i32::MIN).to_lua(), "-2147483648");
    assert_eq!(WorkspaceSelector::Id(0).to_lua(), "0");
}

#[test]
fn event_lines() {
    let e = parse_event_line("workspace>>3\n").unwrap();
    assert_eq!((e.name.as_str(), e.data.as_str()), ("workspace", "3"));
    let e = parse_event_line("openwindow>>80a6f50,2,kitty,Kitty>>x\r\n").unwrap();
    assert_eq!(e.name, "openwindow");
    assert_eq!(e.data, "80a6f50,2,kitty,Kitty>>x");
    let e = parse_event_line("configreloaded>>").unwrap();
    assert_eq!((e.name.as_str(), e.data.as_str()), ("configreloaded", ""));
    assert!(parse_event_line("garbage\n").is_none());
    assert!(parse_event_line("").is_none());
}
