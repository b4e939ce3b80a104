use node_jit::editor::{AppEvent, NodeApp, NodeEvent};
use node_jit::engine::{Artifact, JitEngine, RequestState};
use node_jit::frontend::CompileError;
use node_jit::graph::{GraphError, NodeDesc};
use node_jit::ir::FnSig;

fn host_sigs() -> Vec<FnSig> {
    vec![FnSig { name: b"add".to_vec(), n_params: 2, n_rets: 1 }]
}

fn art(name: &[u8], addr: usize) -> Artifact {
    Artifact { name: name.to_vec(), addr, n_params: 1, n_rets: 1 }
}

#[test]
fn republish_shadows_but_preserves_old_artifact() {
    let mut e = JitEngine::new(host_sigs());
    e.publish(vec![art(b"f", 100), art(b"g", 200)]);
    assert_eq!(e.lookup(&b"f".to_vec()), Some((100, 1, 1)));
    // Recompile `f`: new invocations see the new entry point...
    e.publish(vec![art(b"f", 300)]);
    assert_eq!(e.lookup(&b"f".to_vec()), Some((300, 1, 1)));
    assert_eq!(e.lookup(&b"g".to_vec()), Some((200, 1, 1)));
    // ...while the old artifact stays present and unchanged, so an
    // in-flight invocation of the old code keeps a valid target.
    assert_eq!(e.published.len(), 3);
    assert_eq!(e.published[0].addr, 100);
    assert_eq!(e.published[0].name, b"f".to_vec());
}

#[test]
fn lookup_of_unknown_name_is_none() {
    let mut e = JitEngine::new(host_sigs());
    assert_eq!(e.lookup(&b"f".to_vec()), None);
    e.publish(vec![art(b"f", 100)]);
    assert_eq!(e.lookup(&b"h".to_vec()), None);
}

#[test]
fn failed_compile_leaves_artifacts_untouched() {
    let mut e = JitEngine::new(host_sigs());
    e.publish(vec![art(b"f", 100)]);
    let bad = b"fn broken( -> { }".to_vec();
    match e.compile_source(&bad) {
        Err(CompileError::SyntaxError { .. }) => {}
        other => panic!("expected a syntax error, got {:?}", other),
    }
    // Previously published artifacts are still callable and unchanged.
    assert_eq!(e.lookup(&b"f".to_vec()), Some((100, 1, 1)));
    assert_eq!(e.published.len(), 1);
}

#[test]
fn compile_source_builds_ready_module() {
    let e = JitEngine::new(host_sigs());
    let src = b"fn f(a) -> (r) { r = add(a, 1); }".to_vec();
    let module = e.compile_source(&src).unwrap();
    assert_eq!(module.funcs.len(), 1);
    assert_eq!(module.funcs[0].name, b"f".to_vec());
    assert_eq!(module.funcs[0].n_params, 1);
    assert_eq!(module.funcs[0].n_rets, 1);
}

#[test]
fn request_state_machine_advances_and_fails() {
    let mut s = RequestState::Received;
    for expected in [
        RequestState::Parsed,
        RequestState::Built,
        RequestState::Compiled,
        RequestState::Linked,
        RequestState::Ready,
        RequestState::Ready,
    ] {
        s = s.step(true);
        assert_eq!(s, expected);
    }
    assert_eq!(RequestState::Built.step(false), RequestState::Failed);
    assert_eq!(RequestState::Failed.step(true), RequestState::Failed);
}

#[test]
fn editor_registers_and_instantiates() {
    let mut app = NodeApp::new();
    let d = NodeDesc {
        name: "add".to_string(),
        inputs: vec!["a".to_string(), "b".to_string()],
        outputs: vec!["sum".to_string()],
    };
    assert_eq!(app.on_event(AppEvent::AddNode(d)), None);
    assert_eq!(app.on_event(AppEvent::InsertNode("add".to_string())), Some(0));
    assert_eq!(app.on_event(AppEvent::InsertNode("mul".to_string())), None);
    assert_eq!(app.graph.num_nodes(), 1);
    assert_eq!(app.graph.num_sockets(), 3);
}

#[test]
fn editor_two_phase_connect_gives_live_feedback() {
    let mut app = NodeApp::new();
    let d = NodeDesc {
        name: "f".to_string(),
        inputs: vec!["i".to_string()],
        outputs: vec!["o".to_string()],
    };
    app.on_event(AppEvent::AddNode(d));
    app.on_event(AppEvent::InsertNode("f".to_string())); // sockets 0 in, 1 out
    app.on_event(AppEvent::InsertNode("f".to_string())); // sockets 2 in, 3 out
    // Trial accepts; nothing committed yet.
    assert_eq!(app.on_node_event(NodeEvent::TrySnap(1, 2)), None);
    assert_eq!(app.graph.topo_order().unwrap(), vec![0, 1]);
    // Commit, then the reverse direction is refused as a cycle.
    assert_eq!(app.on_node_event(NodeEvent::Snap(1, 2)), None);
    assert_eq!(
        app.on_node_event(NodeEvent::TrySnap(3, 0)),
        Some(GraphError::InvalidConnection)
    );
    assert_eq!(app.graph.topo_order().unwrap(), vec![0, 1]);
    app.disconnect_input(2);
    assert_eq!(app.on_node_event(NodeEvent::Snap(3, 0)), None);
    assert_eq!(app.graph.topo_order().unwrap(), vec![1, 0]);
}

#[test]
fn editor_reregistration_replaces_description() {
    let mut app = NodeApp::new();
    let one = NodeDesc {
        name: "f".to_string(),
        inputs: vec!["i".to_string()],
        outputs: vec!["o".to_string()],
    };
    let other = NodeDesc { name: "f".to_string(), inputs: vec![], outputs: vec![] };
    app.on_event(AppEvent::AddNode(one));
    app.on_event(AppEvent::AddNode(other));
    // Re-registration replaced the entry in place: one catalog entry,
    // and instantiation sees the new, socketless description.
    assert_eq!(app.node_descriptions.len(), 1);
    assert_eq!(app.on_event(AppEvent::InsertNode("f".to_string())), Some(0));
    assert_eq!(app.graph.num_sockets(), 0);
}

#[test]
fn whitespace_source_compiles_to_empty_module() {
    let e = JitEngine::new(host_sigs());
    let module = e.compile_source(&b"  \n\t \n".to_vec()).unwrap();
    assert_eq!(module.funcs.len(), 0);
}
