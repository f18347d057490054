//! Canonical XML rendering of a node: every occurrence expanded, children in order, text
//! escaped.

use vstd::prelude::*;
use vstd::string::StringSliceAdditionalSpecFns;

use super::super::error::DomainError;
use super::super::graph::{
    canonical_xml, close_tag, escape, escape_byte, has_id, index_of, lemma_index_of,
    lemma_index_of_node, lemma_size_seq_stable, lemma_xml_unfold, open_tag, ranked,
    size_seq_within, size_within, xml_of, xml_seq_within, xml_within,
};
use super::super::node::{Node, NodeBody, NodeId};
use super::{child_at, child_count, find_id, CatalogSnapshot, RenderError};

verus! {

/// A pending step of the rendering.
enum Task {
    /// Render the node at this position.
    Visit(usize),
    /// Close the prompt at this position.
    Close(usize),
}

/// The bytes a task still has to write.
spec fn task_text(ns: Seq<Node>, t: Task) -> Seq<u8> {
    match t {
        Task::Visit(i) => xml_of(ns, ns[i as int].header.id),
        Task::Close(i) => close_tag(ns[i as int].header.symbol@),
    }
}

/// The bytes the stack still has to write, top first.
spec fn stack_text(ns: Seq<Node>, st: Seq<Task>) -> Seq<u8>
    decreases st.len(),
{
    if st.len() == 0 {
        seq![]
    } else {
        task_text(ns, st.last()) + stack_text(ns, st.drop_last())
    }
}

/// Work left in a task.
spec fn task_size(ns: Seq<Node>, t: Task) -> nat {
    match t {
        Task::Visit(i) => size_within(ns, ns[i as int].header.id, ns.len()),
        Task::Close(_) => 1,
    }
}

/// Work left in the stack.
spec fn stack_size(ns: Seq<Node>, st: Seq<Task>) -> nat
    decreases st.len(),
{
    if st.len() == 0 {
        0
    } else {
        task_size(ns, st.last()) + stack_size(ns, st.drop_last())
    }
}

/// Every task names a node.
spec fn tasks_valid(ns: Seq<Node>, st: Seq<Task>) -> bool {
    forall|k: int|
        0 <= k < st.len() ==> match #[trigger] st[k] {
            Task::Visit(i) => i < ns.len(),
            Task::Close(i) => i < ns.len(),
        }
}

/// Appends the bytes of a text.
fn push_str(sink: &mut Vec<u8>, s: &str)
    ensures
        final(sink)@ == old(sink)@ + s.spec_bytes(),
{
    let b = s.as_bytes();
    let mut i: usize = 0;
    while i < b.len()
        invariant
            0 <= i <= b@.len(),
            b@ == s.spec_bytes(),
            sink@ == old(sink)@ + b@.take(i as int),
        decreases b@.len() - i,
    {
        sink.push(b[i]);
        proof {
            assert(b@.take(i + 1) =~= b@.take(i as int).push(b@[i as int]));
            assert(sink@ =~= old(sink)@ + b@.take(i + 1));
        }
        i = i + 1;
    }
    proof {
        assert(b@.take(b@.len() as int) =~= b@);
    }
}

/// Appends `<symbol>`.
fn push_open(sink: &mut Vec<u8>, symbol: &str)
    ensures
        final(sink)@ == old(sink)@ + open_tag(symbol@),
{
    sink.push(60);
    push_str(sink, symbol);
    sink.push(62);
    proof {
        assert(sink@ =~= old(sink)@ + open_tag(symbol@));
    }
}

/// Appends `</symbol>`.
fn push_close(sink: &mut Vec<u8>, symbol: &str)
    ensures
        final(sink)@ == old(sink)@ + close_tag(symbol@),
{
    sink.push(60);
    sink.push(47);
    push_str(sink, symbol);
    sink.push(62);
    proof {
        assert(sink@ =~= old(sink)@ + close_tag(symbol@));
    }
}

/// Appends a text with `&`, `<` and `>` escaped.
fn push_escaped(sink: &mut Vec<u8>, text: &str)
    ensures
        final(sink)@ == old(sink)@ + escape(text.spec_bytes()),
{
    let b = text.as_bytes();
    let mut i: usize = 0;
    proof {
        assert(b@.take(0).len() == 0);
        assert(sink@ =~= old(sink)@ + escape(b@.take(0)));
    }
    while i < b.len()
        invariant
            0 <= i <= b@.len(),
            b@ == text.spec_bytes(),
            sink@ == old(sink)@ + escape(b@.take(i as int)),
        decreases b@.len() - i,
    {
        let byte = b[i];
        let ghost before = sink@;
        if byte == 38 {
            sink.push(38);
            sink.push(97);
            sink.push(109);
            sink.push(112);
            sink.push(59);
        } else if byte == 60 {
            sink.push(38);
            sink.push(108);
            sink.push(116);
            sink.push(59);
        } else if byte == 62 {
            sink.push(38);
            sink.push(103);
            sink.push(116);
            sink.push(59);
        } else {
            sink.push(byte);
        }
        proof {
            assert(sink@ =~= before + escape_byte(byte));
            assert(b@.take(i + 1).drop_last() =~= b@.take(i as int));
            assert(b@.take(i + 1).last() == byte);
            assert(sink@ =~= old(sink)@ + escape(b@.take(i + 1)));
        }
        i = i + 1;
    }
    proof {
        assert(b@.take(b@.len() as int) =~= b@);
    }
}

impl CatalogSnapshot {
    /// Appends the canonical XML of `root`, then a newline, to `sink`.
    #[verifier::rlimit(40)]
    pub fn render_xml(&self, root: NodeId, sink: &mut Vec<u8>) -> (r: Result<(), RenderError>)
        ensures
            has_id(self.nodes(), root) ==> r is Ok && final(sink)@ == old(sink)@ + canonical_xml(self.nodes(), root),
            !has_id(self.nodes(), root) ==> (r matches Err(RenderError::Domain(e)) && e == DomainError::MissingNode(root))
                && final(sink)@ == old(sink)@,
    {
        proof {
            use_type_invariant(self);
            self.lemma_nodes_view();
        }
        let ghost ns = self.nodes@;
        let ghost rank = self.rank@;
        let ri = match find_id(&self.nodes, &self.by_id, root) {
            Some(i) => i,
            None => {
                return Err(RenderError::Domain(DomainError::MissingNode(root)));
            },
        };
        let ghost start = sink@;
        let ghost n = ns.len();
        let mut stack: Vec<Task> = Vec::new();
        stack.push(Task::Visit(ri));
        proof {
            assert(stack@.drop_last() =~= Seq::<Task>::empty());
            assert(stack@.last() == Task::Visit(ri));
            assert(stack_text(ns, stack@.drop_last()) == Seq::<u8>::empty());
            assert(ns[ri as int].header.id == root);
            assert(stack_text(ns, stack@) == xml_of(ns, root) + Seq::<u8>::empty());
            assert(sink@ + stack_text(ns, stack@) =~= start + xml_of(ns, root));
            assert forall|k: int| 0 <= k < stack@.len() implies match #[trigger] stack@[k] {
                Task::Visit(i) => i < ns.len(),
                Task::Close(i) => i < ns.len(),
            } by {
                assert(stack@[k] == Task::Visit(ri));
            }
        }
        while stack.len() > 0
            invariant
                self.well_formed(),
                ns == self.nodes@,
                rank == self.rank@,
                n == ns.len(),
                tasks_valid(ns, stack@),
                sink@ + stack_text(ns, stack@) == start + xml_of(ns, root),
            decreases stack_size(ns, stack@),
        {
            let ghost before = stack@;
            let task = match stack.pop() {
                Some(t) => t,
                None => {
                    proof {
                        assert(false);
                    }
                    Task::Close(0)
                },
            };
            proof {
                assert(stack@ =~= before.drop_last());
                assert(task == before.last());
                assert(tasks_valid(ns, stack@)) by {
                    assert forall|k: int| 0 <= k < stack@.len() implies match #[trigger] stack@[k] {
                        Task::Visit(i) => i < ns.len(),
                        Task::Close(i) => i < ns.len(),
                    } by {
                        assert(stack@[k] == before[k]);
                    }
                }
                assert(match before[before.len() - 1] {
                    Task::Visit(i) => i < ns.len(),
                    Task::Close(i) => i < ns.len(),
                });
            }
            match task {
                Task::Close(i) => {
                    let ghost s0 = sink@;
                    push_close(sink, self.nodes[i].header.symbol.as_str());
                    proof {
                        assert(sink@ + stack_text(ns, stack@) =~= s0 + (task_text(ns, task) + stack_text(ns, stack@)));
                    }
                },
                Task::Visit(i) => {
                    let ghost id = ns[i as int].header.id;
                    proof {
                        lemma_index_of_node(ns, i as int);
                        lemma_xml_unfold(ns, rank, id);
                    }
                    let ghost s0 = sink@;
                    let node = &self.nodes[i];
                    push_open(sink, node.header.symbol.as_str());
                    match &node.body {
                        NodeBody::Fragment(text) => {
                            push_escaped(sink, text.as_str());
                            push_close(sink, node.header.symbol.as_str());
                            proof {
                                assert(sink@ + stack_text(ns, stack@) =~= s0 + (task_text(ns, task) + stack_text(ns, stack@)));
                            }
                        },
                        NodeBody::Prompt(_) => {
                            let ghost kids = ns[i as int].body.children();
                            let ghost rest = stack@;
                            stack.push(Task::Close(i));
                            let count = child_count(node);
                            let mut c: usize = count;
                            proof {
                                assert(kids.skip(count as int).len() == 0);
                                assert(stack@.drop_last() =~= rest);
                                assert(stack_text(ns, stack@) =~= xml_seq_within(ns, kids.skip(count as int), n) + close_tag(ns[i as int].header.symbol@) + stack_text(ns, rest));
                            }
                            while c > 0
                                invariant
                                    self.well_formed(),
                                    ns == self.nodes@,
                                    rank == self.rank@,
                                    n == ns.len(),
                                    i < n,
                                    kids == ns[i as int].body.children(),
                                    count == kids.len(),
                                    0 <= c <= count,
                                    tasks_valid(ns, stack@),
                                    stack_text(ns, stack@) == xml_seq_within(ns, kids.skip(c as int), n) + close_tag(ns[i as int].header.symbol@) + stack_text(ns, rest),
                                    stack_size(ns, stack@) == size_seq_within(ns, kids.skip(c as int), n) + 1 + stack_size(ns, rest),
                                decreases c,
                            {
                                c = c - 1;
                                let child = child_at(&self.nodes[i], c);
                                let ci = match find_id(&self.nodes, &self.by_id, child) {
                                    Some(x) => x,
                                    None => {
                                        proof {
                                            assert(has_id(ns, ns[i as int].body.children()[c as int]));
                                        }
                                        i
                                    },
                                };
                                let ghost prev = stack@;
                                stack.push(Task::Visit(ci));
                                proof {
                                    assert(kids.skip(c as int).drop_first() =~= kids.skip(c + 1));
                                    assert(kids.skip(c as int)[0] == kids[c as int]);
                                    assert(stack@.drop_last() =~= prev);
                                    assert forall|k: int| 0 <= k < stack@.len() implies match #[trigger] stack@[k] {
                                        Task::Visit(j) => j < ns.len(),
                                        Task::Close(j) => j < ns.len(),
                                    } by {
                                        if k < prev.len() {
                                            assert(stack@[k] == prev[k]);
                                        }
                                    }
                                }
                            }
                            proof {
                                assert(kids.skip(0) =~= kids);
                                assert(sink@ + stack_text(ns, stack@) =~= s0 + (task_text(ns, task) + stack_text(ns, rest)));
                                lemma_size_seq_stable(ns, rank, kids, (n - 1) as nat, n, rank[i as int]);
                            }
                        },
                    }
                },
            }
        }
        sink.push(10);
        proof {
            assert(sink@ =~= start + canonical_xml(ns, root));
        }
        Ok(())
    }

    /// The canonical XML of `root` followed by a newline.
    pub fn render_xml_vec(&self, root: NodeId) -> (r: Result<Vec<u8>, RenderError>)
        ensures
            has_id(self.nodes(), root) ==> (r matches Ok(v) && v@ == canonical_xml(self.nodes(), root)),
            !has_id(self.nodes(), root) ==> (r matches Err(RenderError::Domain(e)) && e == DomainError::MissingNode(root)),
    {
        let mut out: Vec<u8> = Vec::new();
        match self.render_xml(root, &mut out) {
            Ok(()) => {
                proof {
                    assert(out@ =~= canonical_xml(self.nodes(), root));
                }
                Ok(out)
            },
            Err(e) => Err(e),
        }
    }
}

} // verus!
