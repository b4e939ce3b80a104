//! The code emitter: linearizes a graph by its dependency order and
//! serializes it into source text for the front-end.
//!
//! Emission is deterministic by construction: the output is a function
//! of the graph model alone (`emit_spec`), with identifier names derived
//! from socket identities, never from any runtime source of variety.
//!
//! The emitted form is one function named `graph` for the whole graph,
//! a deliberate simplification: where the graph falls into several
//! connected components, their nodes still appear in one function, in
//! dependency order, with the parameters and return bindings pooled.
//! Unconnected inputs become the formal parameters, in dependency order
//! and socket order; every node becomes one call statement binding its
//! outputs to fresh value names; outputs that no connection consumes
//! become the return bindings, so every component's roots are returned.
use vstd::prelude::*;

use crate::graph::GraphError;
use crate::graph::GraphModel;
use crate::graph::IndexGraph;
use vstd::utf8::encode_utf8;

verus! {

/// Decimal digits of `n`, most significant first.
pub open spec fn dec_rep(n: nat) -> Seq<u8>
    decreases n,
{
    if n < 10 {
        seq![(48 + n) as u8]
    } else {
        dec_rep(n / 10) + seq![(48 + n % 10) as u8]
    }
}

/// The parameter name for the unconnected input socket `sid`: `p` and
/// the socket identity in decimal.
pub open spec fn pname(sid: int) -> Seq<u8> {
    seq![112u8] + dec_rep(sid as nat)
}

/// The value name bound to output socket `sid`: `v` and the socket
/// identity in decimal.
pub open spec fn vname(sid: int) -> Seq<u8> {
    seq![118u8] + dec_rep(sid as nat)
}

/// `", "`.
pub open spec fn comma_sp() -> Seq<u8> {
    seq![44u8, 32u8]
}

/// Comma-separated concatenation.
pub open spec fn join(parts: Seq<Seq<u8>>) -> Seq<u8>
    decreases parts.len(),
{
    if parts.len() == 0 {
        Seq::empty()
    } else if parts.len() == 1 {
        parts[0]
    } else {
        join(parts.drop_last()) + comma_sp() + parts.last()
    }
}

/// The views of a list of byte buffers.
pub open spec fn views_of(s: Seq<Vec<u8>>) -> Seq<Seq<u8>> {
    Seq::new(s.len(), |i: int| s[i]@)
}

impl GraphModel {
    /// Output socket `o` feeds some input: a downstream connection
    /// consumes it.
    pub open spec fn consumed(self, o: int) -> bool {
        exists|s: int|
            self.socket_in_range(s) && #[trigger] self.incoming[s] == Some(o)
    }
}

/// Parameter names contributed by the first `k` inputs of node `n`: one
/// for each input with no incoming connection.
pub open spec fn param_parts_node(m: GraphModel, n: int, k: int) -> Seq<Seq<u8>>
    decreases k,
{
    if k <= 0 {
        Seq::empty()
    } else {
        param_parts_node(m, n, k - 1) + (if m.incoming[m.nodes[n].inputs[k - 1]] is None {
            seq![pname(m.nodes[n].inputs[k - 1])]
        } else {
            Seq::empty()
        })
    }
}

/// Parameter names over the first `i` nodes of the order `t`.
pub open spec fn param_parts_upto(m: GraphModel, t: Seq<int>, i: int) -> Seq<Seq<u8>>
    decreases i,
{
    if i <= 0 {
        Seq::empty()
    } else {
        param_parts_upto(m, t, i - 1) + param_parts_node(
            m,
            t[i - 1],
            m.nodes[t[i - 1]].inputs.len() as int,
        )
    }
}

/// Return bindings contributed by the first `k` outputs of node `n`:
/// one for each output that no connection consumes.
pub open spec fn ret_parts_node(m: GraphModel, n: int, k: int) -> Seq<Seq<u8>>
    decreases k,
{
    if k <= 0 {
        Seq::empty()
    } else {
        ret_parts_node(m, n, k - 1) + (if !m.consumed(m.nodes[n].outputs[k - 1]) {
            seq![vname(m.nodes[n].outputs[k - 1])]
        } else {
            Seq::empty()
        })
    }
}

/// Return bindings over the first `i` nodes of the order `t`.
pub open spec fn ret_parts_upto(m: GraphModel, t: Seq<int>, i: int) -> Seq<Seq<u8>>
    decreases i,
{
    if i <= 0 {
        Seq::empty()
    } else {
        ret_parts_upto(m, t, i - 1) + ret_parts_node(
            m,
            t[i - 1],
            m.nodes[t[i - 1]].outputs.len() as int,
        )
    }
}

/// Argument names for the first `k` inputs of node `n`: the value name
/// of the connected source output, or the input's own parameter name.
pub open spec fn arg_parts_node(m: GraphModel, n: int, k: int) -> Seq<Seq<u8>>
    decreases k,
{
    if k <= 0 {
        Seq::empty()
    } else {
        arg_parts_node(m, n, k - 1) + seq![
            match m.incoming[m.nodes[n].inputs[k - 1]] {
                Some(o) => vname(o),
                None => pname(m.nodes[n].inputs[k - 1]),
            },
        ]
    }
}

/// The value names bound by the first `k` outputs of node `n`.
pub open spec fn out_parts_node(m: GraphModel, n: int, k: int) -> Seq<Seq<u8>>
    decreases k,
{
    if k <= 0 {
        Seq::empty()
    } else {
        out_parts_node(m, n, k - 1) + seq![vname(m.nodes[n].outputs[k - 1])]
    }
}

/// `"    "`.
pub open spec fn indent() -> Seq<u8> {
    seq![32u8, 32u8, 32u8, 32u8]
}

/// `" = "`.
pub open spec fn eq_sp() -> Seq<u8> {
    seq![32u8, 61u8, 32u8]
}

/// `");\n"`.
pub open spec fn close_call() -> Seq<u8> {
    seq![41u8, 59u8, 10u8]
}

/// The one statement emitted for node `n`: its outputs bound to fresh
/// value names from a call of its description's name on its arguments.
pub open spec fn stmt_bytes(m: GraphModel, n: int) -> Seq<u8> {
    indent() + (if m.nodes[n].outputs.len() > 0 {
        join(out_parts_node(m, n, m.nodes[n].outputs.len() as int)) + eq_sp()
    } else {
        Seq::empty()
    }) + encode_utf8(m.nodes[n].name) + seq![40u8] + join(
        arg_parts_node(m, n, m.nodes[n].inputs.len() as int),
    ) + close_call()
}

/// The statements of the first `i` nodes of the order `t`, concatenated.
pub open spec fn stmts_upto(m: GraphModel, t: Seq<int>, i: int) -> Seq<u8>
    decreases i,
{
    if i <= 0 {
        Seq::empty()
    } else {
        stmts_upto(m, t, i - 1) + stmt_bytes(m, t[i - 1])
    }
}

/// `"fn graph("`.
pub open spec fn header_open() -> Seq<u8> {
    seq![102u8, 110u8, 32u8, 103u8, 114u8, 97u8, 112u8, 104u8, 40u8]
}

/// `") -> ("`.
pub open spec fn header_mid() -> Seq<u8> {
    seq![41u8, 32u8, 45u8, 62u8, 32u8, 40u8]
}

/// `") {\n"`.
pub open spec fn header_close() -> Seq<u8> {
    seq![41u8, 32u8, 123u8, 10u8]
}

/// `"}\n"`.
pub open spec fn footer() -> Seq<u8> {
    seq![125u8, 10u8]
}

/// The source text emitted for the graph: a function `graph` whose
/// parameters are the unconnected inputs, whose body calls each node in
/// dependency order, and whose returns are the unconsumed outputs.
/// Byte-identical for equal graph models.
pub open spec fn emit_spec(m: GraphModel) -> Seq<u8> {
    let t = m.topo_spec();
    header_open() + join(param_parts_upto(m, t, t.len() as int)) + header_mid() + join(
        ret_parts_upto(m, t, t.len() as int),
    ) + header_close() + stmts_upto(m, t, t.len() as int) + footer()
}

/// Appends the decimal digits of `n`.
fn push_dec(out: &mut Vec<u8>, n: usize)
    ensures
        final(out)@ == old(out)@ + dec_rep(n as nat),
    decreases n,
{
    if n < 10 {
        out.push((48 + n as u8) as u8);
    } else {
        push_dec(out, n / 10);
        out.push(48 + (n % 10) as u8);
    }
}

/// Appends the parameter name of socket `sid`.
fn push_pname(out: &mut Vec<u8>, sid: usize)
    ensures
        final(out)@ == old(out)@ + pname(sid as int),
{
    out.push(112);
    push_dec(out, sid);
    proof {
        assert(out@ =~= old(out)@ + pname(sid as int));
    }
}

/// Appends the value name of socket `sid`.
fn push_vname(out: &mut Vec<u8>, sid: usize)
    ensures
        final(out)@ == old(out)@ + vname(sid as int),
{
    out.push(118);
    push_dec(out, sid);
    proof {
        assert(out@ =~= old(out)@ + vname(sid as int));
    }
}

/// Appends `parts` separated by `", "`.
fn push_join(out: &mut Vec<u8>, parts: &Vec<Vec<u8>>)
    ensures
        final(out)@ == old(out)@ + join(views_of(parts@)),
{
    let mut i: usize = 0;
    while i < parts.len()
        invariant
            i <= parts@.len(),
            out@ == old(out)@ + join(views_of(parts@).subrange(0, i as int)),
        decreases parts@.len() - i,
    {
        let ghost before = out@;
        if i > 0 {
            out.push(44);
            out.push(32);
        }
        let mut j: usize = 0;
        let ghost with_sep = out@;
        while j < parts[i].len()
            invariant
                i < parts@.len(),
                j <= parts@[i as int]@.len(),
                out@ == with_sep + parts@[i as int]@.subrange(0, j as int),
            decreases parts@[i as int]@.len() - j,
        {
            let b = parts[i][j];
            out.push(b);
            proof {
                assert(out@ =~= with_sep + parts@[i as int]@.subrange(0, j as int + 1));
            }
            j += 1;
        }
        proof {
            let vs = views_of(parts@);
            assert(parts@[i as int]@.subrange(0, parts@[i as int]@.len() as int) =~= vs[i as int]);
            if i == 0 {
                assert(vs.subrange(0, 1) =~= seq![vs[0]]);
                assert(join(vs.subrange(0, 1)) == vs[0]);
                assert(out@ =~= old(out)@ + join(vs.subrange(0, 1)));
            } else {
                let sub = vs.subrange(0, i as int + 1);
                assert(sub.drop_last() =~= vs.subrange(0, i as int));
                assert(sub.last() == vs[i as int]);
                assert(sub.len() >= 2);
                assert(join(sub) == join(vs.subrange(0, i as int)) + comma_sp() + vs[i as int]);
                assert(out@ =~= old(out)@ + join(sub));
            }
        }
        i += 1;
    }
    proof {
        assert(views_of(parts@).subrange(0, parts@.len() as int) =~= views_of(parts@));
    }
}

/// Whether any connection consumes output socket `o`.
fn consumed_exec(g: &IndexGraph, o: usize) -> (r: bool)
    requires
        g@.wf(),
    ensures
        r == g@.consumed(o as int),
{
    let mut s: usize = 0;
    while s < g.incoming.len()
        invariant
            g@.wf(),
            s <= g.incoming@.len(),
            forall|t: int| 0 <= t < s ==> !((#[trigger] g@.incoming[t]) == Some(o as int)),
        decreases g.incoming@.len() - s,
    {
        match g.incoming[s] {
            Some(x) => {
                if x == o {
                    proof {
                        assert(g@.incoming[s as int] == Some(o as int));
                    }
                    return true;
                }
            },
            None => {
            },
        }
        s += 1;
    }
    proof {
        if g@.consumed(o as int) {
            let t = choose|t: int|
                g@.socket_in_range(t) && #[trigger] g@.incoming[t] == Some(o as int);
            assert(false);
        }
    }
    false
}

/// Serialize the graph into source text: the emitted bytes are exactly
/// `emit_spec` of the graph model, so equal graphs always emit
/// byte-identical text. Fails with `CyclicGraph` exactly when no
/// complete dependency order exists.
#[verifier::rlimit(80)]
pub fn emit(g: &IndexGraph) -> (r: Result<Vec<u8>, GraphError>)
    requires
        g@.wf(),
    ensures
        match r {
            Ok(src) => src@ == emit_spec(g@) && g@.topo_spec().len() == g@.alive_total(),
            Err(e) => e == GraphError::CyclicGraph && g@.topo_spec().len() != g@.alive_total(),
        },
{
    let order = match g.topo_order() {
        Ok(o) => o,
        Err(e) => {
            return Err(GraphError::CyclicGraph);
        },
    };
    let ghost t = g@.topo_spec();
    proof {
        crate::graph::lemma_topo_spec_no_duplicates(g@);
    }
    let mut params: Vec<Vec<u8>> = Vec::new();
    let mut rets: Vec<Vec<u8>> = Vec::new();
    let mut i: usize = 0;
    while i < order.len()
        invariant
            g@.wf(),
            t == g@.topo_spec(),
            crate::graph::seq_usize_ints(order@) == t,
            order@.len() == t.len(),
            forall|p: int| 0 <= p < t.len() ==> g@.node_in_range(#[trigger] t[p]),
            i <= order@.len(),
            views_of(params@) == param_parts_upto(g@, t, i as int),
            views_of(rets@) == ret_parts_upto(g@, t, i as int),
        decreases order@.len() - i,
    {
        let n = order[i];
        proof {
            assert(t[i as int] == n as int);
            assert(g@.node_in_range(n as int));
        }
        let ghost base_p = views_of(params@);
        let mut k: usize = 0;
        while k < g.nodes[n].inputs.len()
            invariant
                g@.wf(),
                n < g@.nodes.len(),
                k <= g.nodes@[n as int].inputs@.len(),
                g.nodes@[n as int].inputs@.len() == g@.nodes[n as int].inputs.len(),
                views_of(params@) == base_p + param_parts_node(g@, n as int, k as int),
            decreases g.nodes@[n as int].inputs@.len() - k,
        {
            let sid = g.nodes[n].inputs[k];
            proof {
                assert(g@.nodes[n as int].inputs[k as int] == sid as int);
                assert(g@.socket_in_range(sid as int));
                assert(g@.incoming.len() == g@.sockets.len());
            }
            match g.incoming[sid] {
                Some(_) => {
                    proof {
                        assert(views_of(params@) =~= base_p + param_parts_node(
                            g@,
                            n as int,
                            k as int + 1,
                        ));
                    }
                },
                None => {
                    let mut v: Vec<u8> = Vec::new();
                    push_pname(&mut v, sid);
                    let ghost before = params@;
                    params.push(v);
                    proof {
                        assert(views_of(params@) =~= views_of(before) + seq![pname(sid as int)]);
                        assert(views_of(params@) =~= base_p + param_parts_node(
                            g@,
                            n as int,
                            k as int + 1,
                        ));
                    }
                },
            }
            k += 1;
        }
        let ghost base_r = views_of(rets@);
        let mut k2: usize = 0;
        while k2 < g.nodes[n].outputs.len()
            invariant
                g@.wf(),
                n < g@.nodes.len(),
                k2 <= g.nodes@[n as int].outputs@.len(),
                g.nodes@[n as int].outputs@.len() == g@.nodes[n as int].outputs.len(),
                views_of(rets@) == base_r + ret_parts_node(g@, n as int, k2 as int),
            decreases g.nodes@[n as int].outputs@.len() - k2,
        {
            let sid = g.nodes[n].outputs[k2];
            proof {
                assert(g@.nodes[n as int].outputs[k2 as int] == sid as int);
                assert(g@.socket_in_range(sid as int));
            }
            if !consumed_exec(g, sid) {
                let mut v: Vec<u8> = Vec::new();
                push_vname(&mut v, sid);
                let ghost before = rets@;
                rets.push(v);
                proof {
                    assert(views_of(rets@) =~= views_of(before) + seq![vname(sid as int)]);
                    assert(views_of(rets@) =~= base_r + ret_parts_node(
                        g@,
                        n as int,
                        k2 as int + 1,
                    ));
                }
            } else {
                proof {
                    assert(views_of(rets@) =~= base_r + ret_parts_node(g@, n as int, k2 as int + 1));
                }
            }
            k2 += 1;
        }
        proof {
            assert(param_parts_upto(g@, t, i as int + 1) == param_parts_upto(g@, t, i as int)
                + param_parts_node(g@, t[i as int], g@.nodes[t[i as int]].inputs.len() as int));
            assert(ret_parts_upto(g@, t, i as int + 1) == ret_parts_upto(g@, t, i as int)
                + ret_parts_node(g@, t[i as int], g@.nodes[t[i as int]].outputs.len() as int));
        }
        i += 1;
    }
    proof {
        assert(param_parts_upto(g@, t, t.len() as int) == views_of(params@));
        assert(ret_parts_upto(g@, t, t.len() as int) == views_of(rets@));
    }
    let mut out: Vec<u8> = Vec::new();
    out.push(102);
    out.push(110);
    out.push(32);
    out.push(103);
    out.push(114);
    out.push(97);
    out.push(112);
    out.push(104);
    out.push(40);
    proof {
        assert(out@ =~= header_open());
    }
    push_join(&mut out, &params);
    out.push(41);
    out.push(32);
    out.push(45);
    out.push(62);
    out.push(32);
    out.push(40);
    push_join(&mut out, &rets);
    out.push(41);
    out.push(32);
    out.push(123);
    out.push(10);
    let ghost base = header_open() + join(views_of(params@)) + header_mid() + join(
        views_of(rets@),
    ) + header_close();
    proof {
        assert(out@ =~= base);
    }
    let mut i2: usize = 0;
    while i2 < order.len()
        invariant
            g@.wf(),
            t == g@.topo_spec(),
            crate::graph::seq_usize_ints(order@) == t,
            order@.len() == t.len(),
            forall|p: int| 0 <= p < t.len() ==> g@.node_in_range(#[trigger] t[p]),
            i2 <= order@.len(),
            out@ == base + stmts_upto(g@, t, i2 as int),
        decreases order@.len() - i2,
    {
        let n = order[i2];
        proof {
            assert(t[i2 as int] == n as int);
            assert(g@.node_in_range(n as int));
        }
        let ghost stmt_base = out@;
        let mut outs: Vec<Vec<u8>> = Vec::new();
        let mut k: usize = 0;
        while k < g.nodes[n].outputs.len()
            invariant
                g@.wf(),
                n < g@.nodes.len(),
                k <= g.nodes@[n as int].outputs@.len(),
                g.nodes@[n as int].outputs@.len() == g@.nodes[n as int].outputs.len(),
                views_of(outs@) == out_parts_node(g@, n as int, k as int),
            decreases g.nodes@[n as int].outputs@.len() - k,
        {
            let sid = g.nodes[n].outputs[k];
            proof {
                assert(g@.nodes[n as int].outputs[k as int] == sid as int);
            }
            let mut v: Vec<u8> = Vec::new();
            push_vname(&mut v, sid);
            let ghost before = outs@;
            outs.push(v);
            proof {
                assert(views_of(outs@) =~= views_of(before) + seq![vname(sid as int)]);
                assert(views_of(outs@) =~= out_parts_node(g@, n as int, k as int + 1));
            }
            k += 1;
        }
        let mut args: Vec<Vec<u8>> = Vec::new();
        let mut k2: usize = 0;
        while k2 < g.nodes[n].inputs.len()
            invariant
                g@.wf(),
                n < g@.nodes.len(),
                k2 <= g.nodes@[n as int].inputs@.len(),
                g.nodes@[n as int].inputs@.len() == g@.nodes[n as int].inputs.len(),
                views_of(args@) == arg_parts_node(g@, n as int, k2 as int),
            decreases g.nodes@[n as int].inputs@.len() - k2,
        {
            let sid = g.nodes[n].inputs[k2];
            proof {
                assert(g@.nodes[n as int].inputs[k2 as int] == sid as int);
                assert(g@.socket_in_range(sid as int));
                assert(g@.incoming.len() == g@.sockets.len());
            }
            let mut v: Vec<u8> = Vec::new();
            match g.incoming[sid] {
                Some(o) => {
                    proof {
                        assert(g@.incoming[sid as int] == Some(o as int));
                    }
                    push_vname(&mut v, o);
                },
                None => {
                    push_pname(&mut v, sid);
                },
            }
            let ghost before = args@;
            args.push(v);
            proof {
                assert(views_of(args@) =~= arg_parts_node(g@, n as int, k2 as int + 1));
            }
            k2 += 1;
        }
        out.push(32);
        out.push(32);
        out.push(32);
        out.push(32);
        proof {
            assert(out@ =~= stmt_base + indent());
        }
        if g.nodes[n].outputs.len() > 0 {
            push_join(&mut out, &outs);
            out.push(32);
            out.push(61);
            out.push(32);
            proof {
                assert(out@ =~= stmt_base + indent() + join(
                    out_parts_node(g@, n as int, g@.nodes[n as int].outputs.len() as int),
                ) + eq_sp());
            }
        }
        let ghost with_outs = out@;
        let nb = g.nodes[n].name.as_str().as_bytes();
        proof {
            assert(nb@ == encode_utf8(g@.nodes[n as int].name));
        }
        let mut b: usize = 0;
        while b < nb.len()
            invariant
                b <= nb@.len(),
                out@ == with_outs + nb@.subrange(0, b as int),
            decreases nb@.len() - b,
        {
            let byte = nb[b];
            out.push(byte);
            proof {
                assert(out@ =~= with_outs + nb@.subrange(0, b as int + 1));
            }
            b += 1;
        }
        proof {
            assert(nb@.subrange(0, nb@.len() as int) =~= nb@);
        }
        out.push(40);
        push_join(&mut out, &args);
        out.push(41);
        out.push(59);
        out.push(10);
        proof {
            assert(out@ =~= stmt_base + stmt_bytes(g@, n as int));
            assert(stmts_upto(g@, t, i2 as int + 1) == stmts_upto(g@, t, i2 as int) + stmt_bytes(
                g@,
                t[i2 as int],
            ));
            assert(out@ =~= base + stmts_upto(g@, t, i2 as int + 1));
        }
        i2 += 1;
    }
    out.push(125);
    out.push(10);
    proof {
        assert(out@ =~= base + stmts_upto(g@, t, t.len() as int) + footer());
        assert(out@ =~= emit_spec(g@));
    }
    Ok(out)
}

/// LAW: code emission is deterministic. Two graphs with the same model
/// emit byte-identical source text; in particular, emitting the same
/// graph twice yields the same bytes.
pub proof fn lemma_emit_deterministic(m1: GraphModel, m2: GraphModel)
    requires
        m1 == m2,
    ensures
        emit_spec(m1) == emit_spec(m2),
{
}

} // verus!
