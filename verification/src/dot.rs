//! The graph-visualization export: one node per step, an edge along
//! each actor's step order, and one edge per dependency pointing from
//! the depended-upon step to the waiting step.
//!
//! The output is ASCII text held as bytes; `dot_text` states every byte
//! of it.

use vstd::prelude::*;

use crate::model::{Actor, ActorV, Event, EventV, Step, StepV, WaitFor};

verus! {

/// The decimal digits of a non-negative number, most significant first.
pub open spec fn dec_str(n: int) -> Seq<u8>
    decreases n when n >= 0
{
    if n < 10 {
        seq![(48 + n) as u8]
    } else {
        dec_str(n / 10).push((48 + n % 10) as u8)
    }
}

/// `digraph {` and the label line opening quote.
pub open spec fn lit_head() -> Seq<u8> {
    seq![
        100u8, 105u8, 103u8, 114u8, 97u8, 112u8, 104u8, 32u8, 123u8, 10u8, 108u8, 97u8, 98u8, 101u8, 108u8,
        61u8, 34u8,
    ]
}

/// Closing quote and newline of a label line.
pub open spec fn lit_quote_nl() -> Seq<u8> {
    seq![34u8, 10u8]
}

/// `subgraph cluster_` before an actor's index.
pub open spec fn lit_subgraph() -> Seq<u8> {
    seq![
        115u8, 117u8, 98u8, 103u8, 114u8, 97u8, 112u8, 104u8, 32u8, 99u8, 108u8, 117u8, 115u8, 116u8, 101u8,
        114u8, 95u8,
    ]
}

/// The open brace of a subgraph block.
pub open spec fn lit_brace_nl() -> Seq<u8> {
    seq![32u8, 123u8, 10u8]
}

/// `label="` of an inner label line.
pub open spec fn lit_label() -> Seq<u8> {
    seq![108u8, 97u8, 98u8, 101u8, 108u8, 61u8, 34u8]
}

/// The dot and space between an index and a name inside a label.
pub open spec fn lit_dot_sp() -> Seq<u8> {
    seq![46u8, 32u8]
}

/// `action_` before a node's coordinates.
pub open spec fn lit_action() -> Seq<u8> {
    seq![97u8, 99u8, 116u8, 105u8, 111u8, 110u8, 95u8]
}

/// The underscore between the two coordinates of a node name.
pub open spec fn lit_us() -> Seq<u8> {
    seq![95u8]
}

/// ` [label="` between a node name and its label.
pub open spec fn lit_node_label() -> Seq<u8> {
    seq![32u8, 91u8, 108u8, 97u8, 98u8, 101u8, 108u8, 61u8, 34u8]
}

/// `"]` and newline closing a node line.
pub open spec fn lit_node_close() -> Seq<u8> {
    seq![34u8, 93u8, 10u8]
}

/// ` -> ` between two node names.
pub open spec fn lit_arrow() -> Seq<u8> {
    seq![32u8, 45u8, 62u8, 32u8]
}

/// A closing brace line.
pub open spec fn lit_close() -> Seq<u8> {
    seq![125u8, 10u8]
}

/// A newline.
pub open spec fn lit_nl() -> Seq<u8> {
    seq![10u8]
}

/// The node name `action_J_K`.
pub open spec fn node_name(j: int, k: int) -> Seq<u8> {
    lit_action().add(dec_str(j)).add(lit_us()).add(dec_str(k))
}

/// The node and chain lines of the first `n` steps of actor `j`: one
/// labelled node per step and an edge from each step to its successor.
pub open spec fn dot_step_lines(j: int, ss: Seq<StepV>, n: int) -> Seq<u8>
    decreases n,
{
    if n <= 0 {
        Seq::empty()
    } else {
        let k = n - 1;
        let node = dot_step_lines(j, ss, k).add(node_name(j, k)).add(lit_node_label()).add(
            dec_str(k),
        ).add(lit_dot_sp()).add(ss[k].long_name).add(lit_node_close());
        if k > 0 {
            node.add(node_name(j, k - 1)).add(lit_arrow()).add(node_name(j, k)).add(lit_nl())
        } else {
            node
        }
    }
}

/// The subgraph block of one actor at position `j`.
pub open spec fn dot_actor_block(a: ActorV, j: int) -> Seq<u8> {
    lit_subgraph().add(dec_str(j)).add(lit_brace_nl()).add(lit_label()).add(dec_str(j)).add(
        lit_dot_sp(),
    ).add(a.name).add(lit_quote_nl()).add(dot_step_lines(j, a.steps, a.steps.len() as int)).add(
        lit_close(),
    )
}

/// The subgraph blocks of the first `n` actors.
pub open spec fn dot_actor_blocks(acts: Seq<ActorV>, n: int) -> Seq<u8>
    decreases n,
{
    if n <= 0 {
        Seq::empty()
    } else {
        dot_actor_blocks(acts, n - 1).add(dot_actor_block(acts[n - 1], n - 1))
    }
}

/// The dependency lines of the first `n` edges: each points from the
/// depended-upon step to the waiting step.
pub open spec fn dot_edge_lines(ws: Seq<WaitFor>, n: int) -> Seq<u8>
    decreases n,
{
    if n <= 0 {
        Seq::empty()
    } else {
        let w = ws[n - 1];
        dot_edge_lines(ws, n - 1).add(
            node_name(w.waiting_on.actor_idx as int, w.waiting_on.step_idx as int),
        ).add(lit_arrow()).add(
            node_name(w.waiting.actor_idx as int, w.waiting.step_idx as int),
        ).add(lit_nl())
    }
}

/// Every byte of the export of one event.
pub open spec fn dot_text(e: EventV) -> Seq<u8> {
    lit_head().add(e.name).add(lit_quote_nl()).add(
        dot_actor_blocks(e.actors, e.actors.len() as int),
    ).add(dot_edge_lines(e.wait_fors, e.wait_fors.len() as int)).add(lit_close())
}

/// Appends the bytes of a slice.
fn push_bytes(out: &mut Vec<u8>, s: &[u8])
    ensures
        final(out)@ == old(out)@.add(s@),
{
    let n = s.len();
    let mut i: usize = 0;
    while i < n
        invariant
            n == s@.len(),
            i <= n,
            out@ == old(out)@.add(s@.take(i as int)),
        decreases n - i,
    {
        out.push(s[i]);
        proof {
            assert(out@ =~= old(out)@.add(s@.take(i + 1)));
        }
        i += 1;
    }
    proof {
        assert(s@.take(n as int) =~= s@);
    }
}

/// Appends a number in decimal.
fn push_dec(out: &mut Vec<u8>, x: usize)
    ensures
        final(out)@ == old(out)@.add(dec_str(x as int)),
    decreases x,
{
    if x >= 10 {
        push_dec(out, x / 10);
    }
    out.push(48 + (x % 10) as u8);
    proof {
        assert(out@ =~= old(out)@.add(dec_str(x as int)));
    }
}

/// Appends the node name `action_J_K`.
fn push_node_name(out: &mut Vec<u8>, j: usize, k: usize)
    ensures
        final(out)@ == old(out)@.add(node_name(j as int, k as int)),
{
    let action: [u8; 7] = [97u8, 99u8, 116u8, 105u8, 111u8, 110u8, 95u8];
    push_bytes(out, action.as_slice());
    proof {
        assert(action@ =~= lit_action());
    }
    push_dec(out, j);
    out.push(95u8);
    proof {
        assert(out@ =~= old(out)@.add(lit_action()).add(dec_str(j as int)).add(lit_us()));
    }
    push_dec(out, k);
    proof {
        assert(out@ =~= old(out)@.add(node_name(j as int, k as int)));
    }
}

/// Appends the node and chain lines of every step of actor `j`.
fn push_step_lines(out: &mut Vec<u8>, ss: &Vec<Step>, j: usize)
    ensures
        final(out)@ == old(out)@.add(
            dot_step_lines(j as int, ss.deep_view(), ss.deep_view().len() as int),
        ),
{
    let ghost ssv = ss.deep_view();
    let n = ss.len();
    let mut k: usize = 0;
    proof {
        assert(out@ =~= old(out)@.add(dot_step_lines(j as int, ssv, 0)));
    }
    while k < n
        invariant
            n == ssv.len(),
            k <= n,
            ssv == ss.deep_view(),
            out@ == old(out)@.add(dot_step_lines(j as int, ssv, k as int)),
        decreases n - k,
    {
        let step = &ss[k];
        proof {
            assert(step.deep_view() == ssv[k as int]);
        }
        push_node_name(out, j, k);
        let node_label: [u8; 9] = [32u8, 91u8, 108u8, 97u8, 98u8, 101u8, 108u8, 61u8, 34u8];
        push_bytes(out, node_label.as_slice());
        proof {
            assert(node_label@ =~= lit_node_label());
        }
        push_dec(out, k);
        let dot_sp: [u8; 2] = [46u8, 32u8];
        push_bytes(out, dot_sp.as_slice());
        proof {
            assert(dot_sp@ =~= lit_dot_sp());
        }
        push_bytes(out, step.long_name.as_slice());
        let node_close: [u8; 3] = [34u8, 93u8, 10u8];
        push_bytes(out, node_close.as_slice());
        proof {
            assert(node_close@ =~= lit_node_close());
        }
        if k > 0 {
            push_node_name(out, j, k - 1);
            let arrow: [u8; 4] = [32u8, 45u8, 62u8, 32u8];
            push_bytes(out, arrow.as_slice());
            proof {
                assert(arrow@ =~= lit_arrow());
            }
            push_node_name(out, j, k);
            out.push(10u8);
        }
        proof {
            assert(out@ =~= old(out)@.add(dot_step_lines(j as int, ssv, k + 1)));
        }
        k += 1;
    }
}

/// Appends the subgraph block of one actor.
fn push_actor_block(out: &mut Vec<u8>, a: &Actor, j: usize)
    ensures
        final(out)@ == old(out)@.add(dot_actor_block(a.deep_view(), j as int)),
{
    let subgraph: [u8; 17] = [
        115u8, 117u8, 98u8, 103u8, 114u8, 97u8, 112u8, 104u8, 32u8, 99u8, 108u8, 117u8, 115u8,
        116u8, 101u8, 114u8, 95u8,
    ];
    push_bytes(out, subgraph.as_slice());
    proof {
        assert(subgraph@ =~= lit_subgraph());
    }
    push_dec(out, j);
    let brace_nl: [u8; 3] = [32u8, 123u8, 10u8];
    push_bytes(out, brace_nl.as_slice());
    proof {
        assert(brace_nl@ =~= lit_brace_nl());
    }
    let label: [u8; 7] = [108u8, 97u8, 98u8, 101u8, 108u8, 61u8, 34u8];
    push_bytes(out, label.as_slice());
    proof {
        assert(label@ =~= lit_label());
    }
    push_dec(out, j);
    let dot_sp: [u8; 2] = [46u8, 32u8];
    push_bytes(out, dot_sp.as_slice());
    proof {
        assert(dot_sp@ =~= lit_dot_sp());
    }
    push_bytes(out, a.name.as_slice());
    let quote_nl: [u8; 2] = [34u8, 10u8];
    push_bytes(out, quote_nl.as_slice());
    proof {
        assert(quote_nl@ =~= lit_quote_nl());
    }
    push_step_lines(out, &a.steps, j);
    let close: [u8; 2] = [125u8, 10u8];
    push_bytes(out, close.as_slice());
    proof {
        assert(close@ =~= lit_close());
        assert(out@ =~= old(out)@.add(dot_actor_block(a.deep_view(), j as int)));
    }
}

impl Event {
    /// Exports the event as graph-description text: a cluster per
    /// actor, a labelled node per step, an edge along each actor's step
    /// order, and one edge per dependency from the depended-upon step to
    /// the waiting step.
    pub fn to_dot_file(&self) -> (r: Vec<u8>)
        ensures
            r@ == dot_text(self.deep_view()),
    {
        let ghost edv = self.deep_view();
        let mut out: Vec<u8> = Vec::new();
        let head: [u8; 17] = [
            100u8, 105u8, 103u8, 114u8, 97u8, 112u8, 104u8, 32u8, 123u8, 10u8, 108u8, 97u8,
            98u8, 101u8, 108u8, 61u8, 34u8,
        ];
        push_bytes(&mut out, head.as_slice());
        proof {
            assert(head@ =~= lit_head());
        }
        push_bytes(&mut out, self.name.as_slice());
        let quote_nl: [u8; 2] = [34u8, 10u8];
        push_bytes(&mut out, quote_nl.as_slice());
        proof {
            assert(quote_nl@ =~= lit_quote_nl());
            assert(out@ =~= lit_head().add(edv.name).add(lit_quote_nl()));
        }
        let ghost pre_actors = out@;
        let n_actors = self.actors.len();
        let mut j: usize = 0;
        proof {
            assert(out@ =~= pre_actors.add(dot_actor_blocks(edv.actors, 0)));
        }
        while j < n_actors
            invariant
                n_actors == edv.actors.len(),
                j <= n_actors,
                edv == self.deep_view(),
                pre_actors == lit_head().add(edv.name).add(lit_quote_nl()),
                out@ == pre_actors.add(dot_actor_blocks(edv.actors, j as int)),
            decreases n_actors - j,
        {
            let actor = &self.actors[j];
            proof {
                assert(actor.deep_view() == edv.actors[j as int]);
            }
            push_actor_block(&mut out, actor, j);
            proof {
                assert(out@ =~= pre_actors.add(dot_actor_blocks(edv.actors, j + 1)));
            }
            j += 1;
        }
        let ghost pre_edges = out@;
        let n_edges = self.wait_fors.len();
        let mut w: usize = 0;
        proof {
            assert(out@ =~= pre_edges.add(dot_edge_lines(edv.wait_fors, 0)));
        }
        while w < n_edges
            invariant
                n_edges == edv.wait_fors.len(),
                w <= n_edges,
                edv == self.deep_view(),
                out@ == pre_edges.add(dot_edge_lines(edv.wait_fors, w as int)),
            decreases n_edges - w,
        {
            let edge = self.wait_fors[w];
            proof {
                assert(edge == edv.wait_fors[w as int]);
            }
            push_node_name(
                &mut out,
                edge.waiting_on.actor_idx as usize,
                edge.waiting_on.step_idx as usize,
            );
            let arrow: [u8; 4] = [32u8, 45u8, 62u8, 32u8];
            push_bytes(&mut out, arrow.as_slice());
            proof {
                assert(arrow@ =~= lit_arrow());
            }
            push_node_name(
                &mut out,
                edge.waiting.actor_idx as usize,
                edge.waiting.step_idx as usize,
            );
            out.push(10u8);
            proof {
                assert(out@ =~= pre_edges.add(dot_edge_lines(edv.wait_fors, w + 1)));
            }
            w += 1;
        }
        let close: [u8; 2] = [125u8, 10u8];
        push_bytes(&mut out, close.as_slice());
        proof {
            assert(close@ =~= lit_close());
            assert(out@ =~= dot_text(edv));
        }
        out
    }
}

} // verus!
