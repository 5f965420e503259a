//! The device tree: nodes parsed from the structure block of a flattened
//! device tree, kept in one vector in the order in which the blob lists them.
use vstd::prelude::*;
use crate::error::ErrorNum;
use crate::mem::types::PhysAddr;
use super::dtb_value::{DTBPropertyValue, ValueModel, property_value, be32, read_be32, values_equal, list_contains};
use crate::text::{str_eq, owned};
use super::dtb_token::{
    FDTToken,
    FDTReserveEntry,
    TokenModel,
    token_at,
    cstr_at,
    reserve_entries,
    lemma_token_advances,
    read_cstr_at,
};

verus! {

/// What a node says: its unit name, its properties in order, the positions
/// of its children in the tree's vector of nodes, and the position of its parent.
pub struct NodeModel {
    pub name: Seq<char>,
    pub props: Seq<(Seq<char>, ValueModel)>,
    pub children: Seq<int>,
    pub parent: Option<int>,
}

/// A node of the device tree.
pub struct DTBNode {
    pub unit_name: String,
    pub properties: Vec<(String, DTBPropertyValue)>,
    pub children: Vec<usize>,
    pub parent: Option<usize>,
}

/// The properties of a node, each as its name's text and its value.
pub open spec fn props_view(p: Seq<(String, DTBPropertyValue)>) -> Seq<(Seq<char>, ValueModel)> {
    Seq::new(p.len(), |i: int| (p[i].0@, p[i].1@))
}

/// Positions as integers.
pub open spec fn ids_view(c: Seq<usize>) -> Seq<int> {
    Seq::new(c.len(), |i: int| c[i] as int)
}

impl View for DTBNode {
    type V = NodeModel;

    open spec fn view(&self) -> NodeModel {
        NodeModel {
            name: self.unit_name@,
            props: props_view(self.properties@),
            children: ids_view(self.children@),
            parent: match self.parent {
                Some(p) => Some(p as int),
                None => None,
            },
        }
    }
}

/// The models of a vector of nodes.
pub open spec fn arena_view(a: Seq<DTBNode>) -> Seq<NodeModel> {
    Seq::new(a.len(), |i: int| a[i]@)
}

/// The state of the reader of one node: before its beginning, among its
/// properties, or among its children.
pub enum FSMState {
    Begin,
    Property,
    Child,
}

/// Orders the states by how far the reader may still go without moving on.
pub open spec fn state_rank(s: FSMState) -> int {
    match s {
        FSMState::Begin => 0,
        FSMState::Child => 1,
        FSMState::Property => 2,
    }
}

/// `a` with the node at `me` given one more property.
pub open spec fn add_prop(a: Seq<NodeModel>, me: int, p: (Seq<char>, ValueModel)) -> Seq<NodeModel> {
    a.update(me, NodeModel { props: a[me].props.push(p), ..a[me] })
}

/// `a` with the node at `me` given one more child, at `c`.
pub open spec fn add_child(a: Seq<NodeModel>, me: int, c: int) -> Seq<NodeModel> {
    a.update(me, NodeModel { children: a[me].children.push(c), ..a[me] })
}

/// Reading one node from `iter` on, the reader being in `state`, the nodes
/// read so far being `a`, the node being read (once begun) at `me`, and its
/// parent at `parent`.  `Ok(None)` when the structure block has no node
/// there; otherwise the nodes with this one and all below it, and the
/// position after its end.  Nop tokens are skipped before a node and among
/// its properties; each child is read in turn and placed after the nodes
/// read before it; a node ends at its end token.
pub open spec fn node_fsm(
    b: Seq<u8>,
    strs: int,
    state: FSMState,
    iter: int,
    a: Seq<NodeModel>,
    me: int,
    parent: Option<int>,
) -> Result<Option<(Seq<NodeModel>, int)>, ErrorNum>
    decreases b.len() + 4 - iter, state_rank(state),
{
    match token_at(b, iter) {
        Err(e) => Err(e),
        Ok((tok, nxt)) => {
            proof {
                lemma_token_advances(b, iter);
            }
            match state {
                FSMState::Begin => match tok {
                    TokenModel::BeginNode(name) => node_fsm(
                        b,
                        strs,
                        FSMState::Property,
                        nxt,
                        a.push(NodeModel { name, props: seq![], children: seq![], parent }),
                        a.len() as int,
                        parent,
                    ),
                    TokenModel::Nop => node_fsm(b, strs, FSMState::Begin, nxt, a, me, parent),
                    TokenModel::EndNode => Err(ErrorNum::EBADDTB),
                    _ => Ok(None),
                },
                FSMState::Property => match tok {
                    TokenModel::Property { length, offset, value } => match cstr_at(
                        b,
                        strs + offset,
                    ) {
                        Err(e) => Err(e),
                        Ok(name) => match property_value(name, value) {
                            Err(e) => Err(e),
                            Ok(v) => node_fsm(
                                b,
                                strs,
                                FSMState::Property,
                                nxt,
                                add_prop(a, me, (name, v)),
                                me,
                                parent,
                            ),
                        },
                    },
                    TokenModel::Nop => node_fsm(b, strs, FSMState::Property, nxt, a, me, parent),
                    TokenModel::BeginNode(_) => node_fsm(
                        b,
                        strs,
                        FSMState::Child,
                        iter,
                        a,
                        me,
                        parent,
                    ),
                    TokenModel::EndNode => Ok(Some((a, nxt))),
                    _ => Err(ErrorNum::EBADDTB),
                },
                FSMState::Child => match tok {
                    TokenModel::BeginNode(_) => match node_fsm(
                        b,
                        strs,
                        FSMState::Begin,
                        iter,
                        a,
                        a.len() as int,
                        Some(me),
                    ) {
                        Err(e) => Err(e),
                        Ok(None) => Err(ErrorNum::EBADDTB),
                        Ok(Some((a2, addr))) => if iter < addr <= b.len() + 3 {
                            node_fsm(
                                b,
                                strs,
                                FSMState::Child,
                                addr,
                                add_child(a2, me, a.len() as int),
                                me,
                                parent,
                            )
                        } else {
                            Err(ErrorNum::EBADDTB)
                        },
                    },
                    TokenModel::EndNode => Ok(Some((a, nxt))),
                    _ => Err(ErrorNum::EBADDTB),
                },
            }
        },
    }
}

impl DTBNode {
    /// Reads the node that starts at `start` (after any Nop tokens) into
    /// `arena`, with `parent` as its parent; the names of properties are
    /// found from `str_block` on.  `Ok(None)` when no node starts there.
    /// Otherwise the node's position in `arena` and the position after its end.
    pub fn read_node(
        b: &[u8],
        start: usize,
        str_block: usize,
        parent: Option<usize>,
        arena: &mut Vec<DTBNode>,
    ) -> (r: Result<Option<(usize, usize)>, ErrorNum>)
        requires
            b@.len() + 16 <= usize::MAX,
            start <= b@.len() + 3,
        ensures
            final(arena)@.len() >= old(arena)@.len(),
            match node_fsm(
                b@,
                str_block as int,
                FSMState::Begin,
                start as int,
                arena_view(old(arena)@),
                old(arena)@.len() as int,
                match parent {
                    Some(p) => Some(p as int),
                    None => None,
                },
            ) {
                Err(e) => r == Err::<Option<(usize, usize)>, ErrorNum>(e),
                Ok(None) => r == Ok::<Option<(usize, usize)>, ErrorNum>(None) && final(arena)@
                    == old(arena)@,
                Ok(Some((a2, addr))) => {
                    &&& r matches Ok(Some((id, n))) && id == old(arena)@.len() && n == addr
                    &&& arena_view(final(arena)@) == a2
                    &&& start < addr <= b@.len() + 3
                },
            },
        decreases b@.len() + 4 - start,
    {
        let ghost par: Option<int> = match parent {
            Some(p) => Some(p as int),
            None => None,
        };
        let ghost a0 = arena_view(arena@);
        let ghost res = node_fsm(b@, str_block as int, FSMState::Begin, start as int, a0, a0.len() as int, par);
        let len = b.len();
        let me = arena.len();
        let mut state = FSMState::Begin;
        let mut iter = start;
        loop
            invariant
                len == b@.len(),
                len + 16 <= usize::MAX,
                me == old(arena)@.len(),
                a0 == arena_view(old(arena)@),
                par == match parent {
                    Some(p) => Some(p as int),
                    None => None,
                },
                res == node_fsm(b@, str_block as int, FSMState::Begin, start as int, a0, me as int, par),
                start <= iter <= len + 3,
                state is Begin ==> arena@ == old(arena)@,
                !(state is Begin) ==> start < iter && me < arena@.len(),
                arena@.len() >= me,
                node_fsm(b@, str_block as int, state, iter as int, arena_view(arena@), me as int, par)
                    == res,
            decreases len + 4 - iter, state_rank(state),
        {
            let (token, nxt) = match FDTToken::read_token(b, iter) {
                Ok(x) => x,
                Err(e) => {
                    return Err(e);
                },
            };
            proof {
                lemma_token_advances(b@, iter as int);
            }
            match state {
                FSMState::Begin => {
                    match token {
                        FDTToken::BeginNode(t) => {
                            arena.push(
                                DTBNode {
                                    unit_name: t.unit_name,
                                    properties: Vec::new(),
                                    children: Vec::new(),
                                    parent,
                                },
                            );
                            proof {
                                assert(arena_view(arena@) =~= arena_view(old(arena)@).push(
                                    arena@[me as int]@,
                                ));
                                assert(props_view(arena@[me as int].properties@) =~= seq![]);
                                assert(ids_view(arena@[me as int].children@) =~= seq![]);
                            }
                            state = FSMState::Property;
                            iter = nxt;
                        },
                        FDTToken::Nop => {
                            iter = nxt;
                        },
                        FDTToken::EndNode => {
                            return Err(ErrorNum::EBADDTB);
                        },
                        _ => {
                            return Ok(None);
                        },
                    }
                },
                FSMState::Property => {
                    match token {
                        FDTToken::Property(t) => {
                            iter = nxt;
                            let off = t.offset as usize;
                            if str_block > len || off > len - str_block {
                                return Err(ErrorNum::EBADDTB);
                            }
                            let name = match read_cstr_at(b, str_block + off) {
                                Ok(n) => n,
                                Err(e) => {
                                    return Err(e);
                                },
                            };
                            let value = match DTBPropertyValue::from_bytes(name.clone(), t.value) {
                                Ok(v) => v,
                                Err(e) => {
                                    return Err(e);
                                },
                            };
                            let ghost before = arena_view(arena@);
                            let ghost p = (name@, value@);
                            arena[me].properties.push((name, value));
                            proof {
                                assert(props_view(arena@[me as int].properties@) =~= before[me as int].props.push(p));
                                assert(arena_view(arena@) =~= add_prop(before, me as int, p));
                            }
                        },
                        FDTToken::Nop => {
                            iter = nxt;
                        },
                        FDTToken::BeginNode(_) => {
                            state = FSMState::Child;
                        },
                        FDTToken::EndNode => {
                            return Ok(Some((me, nxt)));
                        },
                        _ => {
                            return Err(ErrorNum::EBADDTB);
                        },
                    }
                },
                FSMState::Child => {
                    match token {
                        FDTToken::BeginNode(_) => {
                            let child = arena.len();
                            let ghost before = arena_view(arena@);
                            let sub = Self::read_node(b, iter, str_block, Some(me), arena);
                            match sub {
                                Err(e) => {
                                    return Err(e);
                                },
                                Ok(None) => {
                                    return Err(ErrorNum::EBADDTB);
                                },
                                Ok(Some((_, addr))) => {
                                    let ghost mid = arena_view(arena@);
                                    iter = addr;
                                    arena[me].children.push(child);
                                    proof {
                                        assert(ids_view(arena@[me as int].children@) =~= mid[me as int].children.push(child as int));
                                        assert(arena_view(arena@) =~= add_child(mid, me as int, child as int));
                                    }
                                },
                            }
                        },
                        FDTToken::EndNode => {
                            return Ok(Some((me, nxt)));
                        },
                        _ => {
                            return Err(ErrorNum::EBADDTB);
                        },
                    }
                },
            }
        }
    }
}


/// Every child of a node comes after it and within the vector, and every
/// parent comes before its node.
pub open spec fn tree_wf(a: Seq<NodeModel>) -> bool {
    &&& forall|i: int, k: int|
        0 <= i < a.len() && 0 <= k < a[i].children.len() ==> i < #[trigger] a[i].children[k] < a.len()
    &&& forall|i: int| 0 <= i < a.len() ==> (#[trigger] a[i].parent matches Some(p) ==> 0 <= p < i)
}

/// Reading a node keeps the vector well formed, only adds nodes after the
/// ones there were, keeps their parents, and ends past where it started.
pub proof fn lemma_fsm_wf(
    b: Seq<u8>,
    strs: int,
    state: FSMState,
    iter: int,
    a: Seq<NodeModel>,
    me: int,
    parent: Option<int>,
)
    requires
        tree_wf(a),
        state is Begin ==> (parent matches Some(p) ==> 0 <= p < a.len()),
        !(state is Begin) ==> 0 <= me < a.len(),
    ensures
        node_fsm(b, strs, state, iter, a, me, parent) matches Ok(Some((a2, addr))) ==> {
            &&& tree_wf(a2)
            &&& a2.len() >= a.len()
            &&& iter < addr <= b.len() + 3
            &&& forall|i: int| 0 <= i < a.len() ==> #[trigger] a2[i].parent == a[i].parent
            &&& (state is Begin ==> a2.len() > a.len() && a2[a.len() as int].parent == parent)
        },
    decreases b.len() + 4 - iter, state_rank(state),
{
    match token_at(b, iter) {
        Err(_) => {},
        Ok((tok, nxt)) => {
            lemma_token_advances(b, iter);
            match state {
                FSMState::Begin => match tok {
                    TokenModel::BeginNode(name) => {
                        let a1 = a.push(NodeModel { name, props: seq![], children: seq![], parent });
                        assert(tree_wf(a1)) by {
                            assert forall|i: int| 0 <= i < a1.len() implies (#[trigger] a1[i].parent matches Some(p) ==> 0 <= p < i) by {
                                if i < a.len() {
                                    assert(a1[i] == a[i]);
                                }
                            }
                            assert forall|i: int, k: int|
                                0 <= i < a1.len() && 0 <= k < a1[i].children.len() implies i < #[trigger] a1[i].children[k] < a1.len() by {
                                assert(a1[i] == a[i]);
                            }
                        }
                        lemma_fsm_wf(b, strs, FSMState::Property, nxt, a1, a.len() as int, parent);
                    },
                    TokenModel::Nop => {
                        lemma_fsm_wf(b, strs, FSMState::Begin, nxt, a, me, parent);
                    },
                    _ => {},
                },
                FSMState::Property => match tok {
                    TokenModel::Property { length, offset, value } => {
                        if let Ok(name) = cstr_at(b, strs + offset) {
                            if let Ok(v) = property_value(name, value) {
                                let a1 = add_prop(a, me, (name, v));
                                assert(tree_wf(a1)) by {
                                    assert forall|i: int| 0 <= i < a1.len() implies (#[trigger] a1[i].parent matches Some(p) ==> 0 <= p < i) by {
                                        assert(a1[i].parent == a[i].parent);
                                    }
                                    assert forall|i: int, k: int|
                                        0 <= i < a1.len() && 0 <= k < a1[i].children.len() implies i < #[trigger] a1[i].children[k] < a1.len() by {
                                        assert(a1[i].children == a[i].children);
                                    }
                                }
                                lemma_fsm_wf(b, strs, FSMState::Property, nxt, a1, me, parent);
                            }
                        }
                    },
                    TokenModel::Nop => {
                        lemma_fsm_wf(b, strs, FSMState::Property, nxt, a, me, parent);
                    },
                    TokenModel::BeginNode(_) => {
                        lemma_fsm_wf(b, strs, FSMState::Child, iter, a, me, parent);
                    },
                    _ => {},
                },
                FSMState::Child => match tok {
                    TokenModel::BeginNode(_) => {
                        lemma_fsm_wf(b, strs, FSMState::Begin, iter, a, a.len() as int, Some(me));
                        if let Ok(Some((a2, addr))) = node_fsm(
                            b,
                            strs,
                            FSMState::Begin,
                            iter,
                            a,
                            a.len() as int,
                            Some(me),
                        ) {
                            if iter < addr <= b.len() + 3 {
                                let c = a.len() as int;
                                let a3 = add_child(a2, me, c);
                                assert(tree_wf(a3)) by {
                                    assert forall|i: int| 0 <= i < a3.len() implies (#[trigger] a3[i].parent matches Some(p) ==> 0 <= p < i) by {
                                        assert(a3[i].parent == a2[i].parent);
                                    }
                                    assert forall|i: int, k: int|
                                        0 <= i < a3.len() && 0 <= k < a3[i].children.len() implies i < #[trigger] a3[i].children[k] < a3.len() by {
                                        if i == me {
                                            if k < a2[i].children.len() {
                                                assert(a3[i].children[k] == a2[i].children[k]);
                                            }
                                        } else {
                                            assert(a3[i] == a2[i]);
                                        }
                                    }
                                }
                                lemma_fsm_wf(b, strs, FSMState::Child, addr, a3, me, parent);
                                assert forall|i: int| 0 <= i < a.len() implies #[trigger] a3[i].parent == a[i].parent by {
                                    assert(a2[i].parent == a[i].parent);
                                }
                            }
                        }
                    },
                    _ => {},
                },
            }
        },
    }
}

/// The nodes at the top of the structure block from `iter` on, read after
/// the nodes `a` whose top ones are at `roots`: reading stops at the first
/// position where no node begins.
pub open spec fn top_nodes(
    b: Seq<u8>,
    strs: int,
    iter: int,
    a: Seq<NodeModel>,
    roots: Seq<int>,
) -> Result<(Seq<NodeModel>, Seq<int>), ErrorNum>
    decreases b.len() + 4 - iter,
{
    match node_fsm(b, strs, FSMState::Begin, iter, a, a.len() as int, None) {
        Err(e) => Err(e),
        Ok(None) => Ok((a, roots)),
        Ok(Some((a2, addr))) => if iter < addr <= b.len() + 3 {
            top_nodes(b, strs, addr, a2, roots.push(a.len() as int))
        } else {
            Err(ErrorNum::EBADDTB)
        },
    }
}

/// The size of the header of a flattened device tree.
pub const FDT_HEADER_SIZE: usize = 36;

/// The number that a flattened device tree starts with.
pub const FDT_MAGIC: u32 = 0xD00D_FEED;

/// What a device tree holds: its reserved memory regions (start, length),
/// all its nodes, and the positions of the nodes at its top.
pub struct TreeModel {
    pub reserved: Seq<(usize, usize)>,
    pub nodes: Seq<NodeModel>,
    pub roots: Seq<int>,
}

/// The device tree that the blob `b` holds: the header gives the positions of
/// the memory reservation block, the structure block and the strings block.
pub open spec fn parse_spec(b: Seq<u8>) -> Result<TreeModel, ErrorNum> {
    if b.len() < FDT_HEADER_SIZE || be32(b, 0) != FDT_MAGIC {
        Err(ErrorNum::EBADDTB)
    } else {
        match reserve_entries(b, be32(b, 16)) {
            Err(e) => Err(e),
            Ok(es) => match top_nodes(b, be32(b, 12), be32(b, 8), seq![], seq![]) {
                Err(e) => Err(e),
                Ok((nodes, roots)) => Ok(
                    TreeModel {
                        reserved: Seq::new(
                            es.len(),
                            |i: int| (es[i].0 as usize, es[i].1 as usize),
                        ),
                        nodes,
                        roots,
                    },
                ),
            },
        }
    }
}

/// A region of memory that is not to be used: where it starts and how long it is.
#[derive(Clone, Copy)]
pub struct DTBMemReserve {
    pub start: PhysAddr,
    pub length: usize,
}

/// A parsed device tree.
pub struct DeviceTree {
    reserved_mem: Vec<DTBMemReserve>,
    nodes: Vec<usize>,
    arena: Vec<DTBNode>,
}

impl View for DeviceTree {
    type V = TreeModel;

    closed spec fn view(&self) -> TreeModel {
        TreeModel {
            reserved: Seq::new(
                self.reserved_mem@.len(),
                |i: int| (self.reserved_mem@[i].start.0, self.reserved_mem@[i].length),
            ),
            nodes: arena_view(self.arena@),
            roots: ids_view(self.nodes@),
        }
    }
}

/// The nodes are well formed and the top ones are among them.
pub open spec fn tree_model_wf(t: TreeModel) -> bool {
    &&& tree_wf(t.nodes)
    &&& forall|i: int| 0 <= i < t.roots.len() ==> 0 <= #[trigger] t.roots[i] < t.nodes.len()
}

/// Reading the top nodes keeps the vector well formed and adds each new top
/// node at a position within it.
proof fn lemma_top_wf(b: Seq<u8>, strs: int, iter: int, a: Seq<NodeModel>, roots: Seq<int>)
    requires
        tree_wf(a),
        forall|i: int| 0 <= i < roots.len() ==> 0 <= #[trigger] roots[i] < a.len(),
    ensures
        top_nodes(b, strs, iter, a, roots) matches Ok((a2, r2)) ==> tree_model_wf(
            TreeModel { reserved: seq![], nodes: a2, roots: r2 },
        ),
    decreases b.len() + 4 - iter,
{
    lemma_fsm_wf(b, strs, FSMState::Begin, iter, a, a.len() as int, None);
    if let Ok(Some((a2, addr))) = node_fsm(b, strs, FSMState::Begin, iter, a, a.len() as int, None) {
        if iter < addr <= b.len() + 3 {
            let r2 = roots.push(a.len() as int);
            assert forall|i: int| 0 <= i < r2.len() implies 0 <= #[trigger] r2[i] < a2.len() by {
                if i < roots.len() {
                    assert(r2[i] == roots[i]);
                }
            }
            lemma_top_wf(b, strs, addr, a2, r2);
        }
    }
}

impl DeviceTree {
    #[verifier::type_invariant]
    closed spec fn inv(self) -> bool {
        tree_model_wf(self@)
    }

    /// Parses the flattened device tree in `b`.
    pub fn parse(b: &[u8]) -> (r: Result<Self, ErrorNum>)
        requires
            b@.len() + 16 <= usize::MAX,
        ensures
            match parse_spec(b@) {
                Ok(t) => r matches Ok(d) && d@ == t,
                Err(e) => r matches Err(e2) && e2 == e,
            },
    {
        let len = b.len();
        if len < FDT_HEADER_SIZE || read_be32(b, 0) != FDT_MAGIC {
            return Err(ErrorNum::EBADDTB);
        }
        let struct_off = read_be32(b, 8) as usize;
        let string_off = read_be32(b, 12) as usize;
        let rsvmap_off = read_be32(b, 16) as usize;
        let entries = match FDTReserveEntry::get_entries(b, rsvmap_off) {
            Ok(es) => es,
            Err(e) => {
                return Err(e);
            },
        };
        let ghost es = reserve_entries(b@, rsvmap_off as int)->Ok_0;
        let mut reserved_mem: Vec<DTBMemReserve> = Vec::new();
        let mut k: usize = 0;
        while k < entries.len()
            invariant
                k <= entries@.len(),
                entries@.len() == es.len(),
                forall|i: int|
                    0 <= i < es.len() ==> (#[trigger] entries@[i]).address == es[i].0
                        && entries@[i].size == es[i].1,
                reserved_mem@.len() == k,
                forall|i: int|
                    0 <= i < k ==> (#[trigger] reserved_mem@[i]).start.0 == es[i].0 as usize
                        && reserved_mem@[i].length == es[i].1 as usize,
            decreases entries@.len() - k,
        {
            reserved_mem.push(
                DTBMemReserve {
                    start: PhysAddr(entries[k].address as usize),
                    length: entries[k].size as usize,
                },
            );
            k = k + 1;
        }
        let ghost rsv = Seq::new(es.len(), |i: int| (es[i].0 as usize, es[i].1 as usize));
        proof {
            assert(Seq::new(
                reserved_mem@.len(),
                |i: int| (reserved_mem@[i].start.0, reserved_mem@[i].length),
            ) =~= rsv);
        }
        let mut arena: Vec<DTBNode> = Vec::new();
        let mut roots: Vec<usize> = Vec::new();
        let mut iter = struct_off;
        let ghost strs = string_off as int;
        let ghost total = top_nodes(b@, strs, struct_off as int, seq![], seq![]);
        proof {
            assert(arena_view(arena@) =~= Seq::<NodeModel>::empty());
            assert(ids_view(roots@) =~= Seq::<int>::empty());
            lemma_top_wf(b@, strs, struct_off as int, seq![], seq![]);
        }
        loop
            invariant
                len == b@.len(),
                len + 16 <= usize::MAX,
                strs == string_off,
                top_nodes(b@, strs, iter as int, arena_view(arena@), ids_view(roots@)) == total,
                total == top_nodes(b@, strs, struct_off as int, seq![], seq![]),
                total is Ok ==> tree_model_wf(TreeModel { reserved: seq![], nodes: total->Ok_0.0, roots: total->Ok_0.1 }),
                parse_spec(b@) == match total {
                    Err(e) => Err(e),
                    Ok((nodes, rs)) => Ok::<TreeModel, ErrorNum>(TreeModel { reserved: rsv, nodes, roots: rs }),
                },
            ensures
                total == Ok::<(Seq<NodeModel>, Seq<int>), ErrorNum>((arena_view(arena@), ids_view(roots@))),
            decreases len + 4 - iter,
        {
            if iter > len {
                return Err(ErrorNum::EBADDTB);
            }
            let ghost before = arena_view(arena@);
            let ghost rbefore = ids_view(roots@);
            let read = DTBNode::read_node(b, iter, string_off, None, &mut arena);
            match read {
                Err(e) => {
                    return Err(e);
                },
                Ok(None) => {
                    break;
                },
                Ok(Some((id, nxt))) => {
                    roots.push(id);
                    proof {
                        assert(ids_view(roots@) =~= rbefore.push(before.len() as int));
                    }
                    iter = nxt;
                },
            }
        }
        proof {
            let t = TreeModel { reserved: seq![], nodes: arena_view(arena@), roots: ids_view(roots@) };
            assert(tree_model_wf(t));
        }
        let tree = DeviceTree { reserved_mem, nodes: roots, arena };
        Ok(tree)
    }
}


/// The value of the first property named `key`.
pub open spec fn lookup(p: Seq<(Seq<char>, ValueModel)>, key: Seq<char>) -> Option<ValueModel>
    decreases p.len(),
{
    if p.len() == 0 {
        None
    } else if p[0].0 == key {
        Some(p[0].1)
    } else {
        lookup(p.drop_first(), key)
    }
}

impl DTBNode {
    /// The value of the node's first property named `key`.
    pub fn get_value(&self, key: &str) -> (r: Result<DTBPropertyValue, ErrorNum>)
        ensures
            match lookup(self@.props, key@) {
                Some(v) => r matches Ok(x) && x@ == v,
                None => r == Err::<DTBPropertyValue, ErrorNum>(ErrorNum::EBADDTB),
            },
    {
        let ghost p = self@.props;
        let mut i: usize = 0;
        assert(p.subrange(0, p.len() as int) =~= p);
        while i < self.properties.len()
            invariant
                i <= self.properties@.len(),
                p == props_view(self.properties@),
                lookup(p, key@) == lookup(p.subrange(i as int, p.len() as int), key@),
            decreases self.properties@.len() - i,
        {
            let ghost rest = p.subrange(i as int, p.len() as int);
            proof {
                assert(rest.drop_first() =~= p.subrange(i + 1, p.len() as int));
                assert(rest[0] == p[i as int]);
            }
            if str_eq(self.properties[i].0.as_str(), key) {
                return Ok(self.properties[i].1.clone());
            }
            i = i + 1;
        }
        Err(ErrorNum::EBADDTB)
    }
}

/// The positions of the nodes of the subtree at `id`, the node first and then
/// the subtree of each child in turn.
pub open spec fn subtree(a: Seq<NodeModel>, id: int) -> Seq<int>
    decreases a.len() - id, 1int, 0int,
{
    if 0 <= id < a.len() {
        seq![id] + subtrees(a, id, a[id].children.len() as int)
    } else {
        seq![]
    }
}

/// The subtrees of the first `k` children of the node at `id`, one after another.
pub open spec fn subtrees(a: Seq<NodeModel>, id: int, k: int) -> Seq<int>
    decreases a.len() - id, 0int, k,
{
    if 0 <= id < a.len() && 0 < k <= a[id].children.len() {
        let c = a[id].children[k - 1];
        subtrees(a, id, k - 1) + if id < c < a.len() {
            subtree(a, c)
        } else {
            seq![]
        }
    } else {
        seq![]
    }
}

/// The subtrees of the nodes at `rs`, one after another.
pub open spec fn forest(a: Seq<NodeModel>, rs: Seq<int>) -> Seq<int>
    decreases rs.len(),
{
    if rs.len() == 0 {
        seq![]
    } else {
        forest(a, rs.drop_last()) + subtree(a, rs.last())
    }
}

/// The positions among `ids` of the nodes that pass `test`, in order; the
/// first error of the test, in order, if there is one.
pub open spec fn select(
    a: Seq<NodeModel>,
    ids: Seq<int>,
    test: spec_fn(NodeModel) -> Result<bool, ErrorNum>,
) -> Result<Seq<int>, ErrorNum>
    decreases ids.len(),
{
    if ids.len() == 0 {
        Ok(seq![])
    } else {
        match test(a[ids[0]]) {
            Err(e) => Err(e),
            Ok(t) => match select(a, ids.drop_first(), test) {
                Err(e) => Err(e),
                Ok(r) => Ok(
                    if t {
                        seq![ids[0]] + r
                    } else {
                        r
                    },
                ),
            },
        }
    }
}

/// Joins the selections from two runs of positions.
pub open spec fn join(x: Result<Seq<int>, ErrorNum>, y: Result<Seq<int>, ErrorNum>) -> Result<
    Seq<int>,
    ErrorNum,
> {
    match x {
        Err(e) => Err(e),
        Ok(r1) => match y {
            Err(e) => Err(e),
            Ok(r2) => Ok(r1 + r2),
        },
    }
}

/// Selecting from two runs one after another is selecting from each and joining.
pub proof fn lemma_select_concat(
    a: Seq<NodeModel>,
    s1: Seq<int>,
    s2: Seq<int>,
    test: spec_fn(NodeModel) -> Result<bool, ErrorNum>,
)
    ensures
        select(a, s1 + s2, test) == join(select(a, s1, test), select(a, s2, test)),
    decreases s1.len(),
{
    if s1.len() == 0 {
        assert(s1 + s2 =~= s2);
        if let Ok(r) = select(a, s2, test) {
            assert(Seq::<int>::empty() + r =~= r);
        }
    } else {
        assert((s1 + s2).drop_first() =~= s1.drop_first() + s2);
        assert((s1 + s2)[0] == s1[0]);
        lemma_select_concat(a, s1.drop_first(), s2, test);
        if let Ok(t) = test(a[s1[0]]) {
            if let Ok(r1) = select(a, s1.drop_first(), test) {
                if let Ok(r2) = select(a, s2, test) {
                    assert(seq![s1[0]] + (r1 + r2) =~= (seq![s1[0]] + r1) + r2);
                }
            }
        }
    }
}

/// The test of `search`: the node's first property named `field` equals `target`.
pub open spec fn field_equals(field: Seq<char>, target: ValueModel) -> spec_fn(NodeModel) -> Result<
    bool,
    ErrorNum,
> {
    |n: NodeModel|
        match lookup(n.props, field) {
            None => Ok(false),
            Some(v) => values_equal(v, target),
        }
}

/// The test of `serach_compatible`: the node's first "compatible" property lists `c`.
pub open spec fn compatible_with(c: Seq<char>) -> spec_fn(NodeModel) -> Result<bool, ErrorNum> {
    |n: NodeModel|
        match lookup(n.props, "compatible"@) {
            None => Ok(false),
            Some(v) => list_contains(v, c),
        }
}

/// The test of `contains_field`: the node has a property named `field`.
pub open spec fn has_field(field: Seq<char>) -> spec_fn(NodeModel) -> Result<bool, ErrorNum> {
    |n: NodeModel| Ok(lookup(n.props, field) is Some)
}

/// What `search_single` gives from the top node at `i` on: the one node that
/// passes `test` under the first top node whose subtree has any, `ENXIO` when
/// none has; `None` when that subtree has more than one.
pub open spec fn single_from(
    a: Seq<NodeModel>,
    rs: Seq<int>,
    test: spec_fn(NodeModel) -> Result<bool, ErrorNum>,
    i: int,
) -> Option<Result<int, ErrorNum>>
    decreases rs.len() - i,
{
    if i < 0 || i >= rs.len() {
        Some(Err(ErrorNum::ENXIO))
    } else {
        match select(a, subtree(a, rs[i]), test) {
            Err(e) => Some(Err(e)),
            Ok(r) => if r.len() == 0 {
                single_from(a, rs, test, i + 1)
            } else if r.len() == 1 {
                Some(Ok(r[0]))
            } else {
                None
            },
        }
    }
}

/// With a single top node, what `search_single` gives follows from what
/// `search` finds: the test's error as `search` gives it, `ENXIO` when it
/// finds no node, the node when it finds exactly one, and no answer (the
/// kernel stops) when it finds more.
pub proof fn lemma_single_top_node(
    a: Seq<NodeModel>,
    rs: Seq<int>,
    test: spec_fn(NodeModel) -> Result<bool, ErrorNum>,
)
    requires
        rs.len() == 1,
    ensures
        match select(a, forest(a, rs), test) {
            Err(e) => single_from(a, rs, test, 0) == Some(Err::<int, ErrorNum>(e)),
            Ok(v) => if v.len() == 0 {
                single_from(a, rs, test, 0) == Some(Err::<int, ErrorNum>(ErrorNum::ENXIO))
            } else if v.len() == 1 {
                single_from(a, rs, test, 0) == Some(Ok::<int, ErrorNum>(v[0]))
            } else {
                single_from(a, rs, test, 0) is None
            },
        },
{
    assert(rs.drop_last() =~= Seq::<int>::empty());
    assert(forest(a, rs.drop_last()) =~= Seq::<int>::empty());
    assert(forest(a, rs) =~= subtree(a, rs[0]));
    reveal_with_fuel(single_from, 2);
}

/// The subtree of the first `k + 1` children is that of the first `k`,
/// followed by the subtree of child `k`.
proof fn lemma_subtrees_step(a: Seq<NodeModel>, id: int, k: int)
    requires
        tree_wf(a),
        0 <= id < a.len(),
        0 <= k < a[id].children.len(),
    ensures
        subtrees(a, id, k + 1) == subtrees(a, id, k) + subtree(a, a[id].children[k]),
{
    assert(id < a[id].children[k] < a.len());
}

/// The subtrees of the first `j` children come first among those of the first `m`.
proof fn lemma_subtrees_prefix(a: Seq<NodeModel>, id: int, j: int, m: int)
    requires
        0 <= id < a.len(),
        0 <= j <= m <= a[id].children.len(),
    ensures
        subtrees(a, id, j).len() <= subtrees(a, id, m).len(),
        subtrees(a, id, j) =~= subtrees(a, id, m).subrange(0, subtrees(a, id, j).len() as int),
    decreases m - j,
{
    if j < m {
        lemma_subtrees_prefix(a, id, j, m - 1);
    }
}

/// The subtrees of the first `k + 1` top nodes are those of the first `k`,
/// followed by the subtree of top node `k`.
proof fn lemma_forest_step(a: Seq<NodeModel>, rs: Seq<int>, k: int)
    requires
        0 <= k < rs.len(),
    ensures
        forest(a, rs.take(k + 1)) == forest(a, rs.take(k)) + subtree(a, rs[k]),
{
    assert(rs.take(k + 1).drop_last() =~= rs.take(k));
}

/// Positions as integers, two runs joined.
proof fn lemma_ids_concat(v: Seq<usize>, w: Seq<usize>)
    ensures
        ids_view(v + w) == ids_view(v) + ids_view(w),
{
    assert(ids_view(v + w) =~= ids_view(v) + ids_view(w));
}

impl DeviceTree {
    /// The nodes under the node at `root` whose first property named
    /// `field` equals `target`, in the order of the blob.
    fn search_inner(&self, field: &str, target: &DTBPropertyValue, root: usize) -> (r: Result<
        Vec<usize>,
        ErrorNum,
    >)
        requires
            root < self@.nodes.len(),
        ensures
            match select(self@.nodes, subtree(self@.nodes, root as int), field_equals(field@, target@)) {
                Ok(ids) => r matches Ok(v) && ids_view(v@) == ids,
                Err(e) => r == Err::<Vec<usize>, ErrorNum>(e),
            },
        decreases self@.nodes.len() - root,
    {
        proof {
            use_type_invariant(self);
        }
        let ghost a = self@.nodes;
        let ghost test = field_equals(field@, target@);
        let node = &self.arena[root];
        assert(node@ == a[root as int]);
        let mut res: Vec<usize> = Vec::new();
        let hit = match node.get_value(field) {
            Ok(val) => match val.equals(target) {
                Ok(t) => t,
                Err(e) => {
                    proof {
                        assert(subtree(a, root as int) == seq![root as int] + subtrees(a, root as int, a[root as int].children.len() as int));
                    }
                    return Err(e);
                },
            },
            Err(_) => false,
        };
        if hit {
            res.push(root);
        }
        proof {
            assert(subtrees(a, root as int, 0) =~= Seq::<int>::empty());
            assert(seq![root as int] + subtrees(a, root as int, 0) =~= seq![root as int]);
            assert(seq![root as int].drop_first() =~= Seq::<int>::empty());
            assert(ids_view(res@) =~= if hit { seq![root as int] } else { Seq::<int>::empty() });
            assert(test(a[root as int]) == Ok::<bool, ErrorNum>(hit));
            assert(seq![root as int][0] == root as int);
            assert(select(a, Seq::<int>::empty(), test) == Ok::<Seq<int>, ErrorNum>(Seq::<int>::empty()));
            assert(seq![root as int] + Seq::<int>::empty() =~= seq![root as int]);
        }
        let mut k: usize = 0;
        while k < node.children.len()
            invariant
                a == self@.nodes,
                tree_model_wf(self@),
                test == field_equals(field@, target@),
                root < a.len(),
                node@ == a[root as int],
                k <= node.children@.len(),
                select(a, seq![root as int] + subtrees(a, root as int, k as int), test) == Ok::<Seq<int>, ErrorNum>(ids_view(res@)),
            decreases node.children@.len() - k,
        {
            let c = node.children[k];
            proof {
                assert(a[root as int].children[k as int] == c as int);
                assert(root < c < a.len());
                lemma_subtrees_step(a, root as int, k as int);
                assert(seq![root as int] + subtrees(a, root as int, k + 1) =~= (seq![root as int] + subtrees(a, root as int, k as int)) + subtree(a, c as int));
                lemma_select_concat(a, seq![root as int] + subtrees(a, root as int, k as int), subtree(a, c as int), test);
            }
            let mut sub = match self.search_inner(field, target, c) {
                Ok(v) => v,
                Err(e) => {
                    proof {
                        let n = a[root as int].children.len() as int;
                        lemma_subtrees_prefix(a, root as int, k + 1, n);
                        let s1 = seq![root as int] + subtrees(a, root as int, k + 1);
                        let s2 = subtrees(a, root as int, n).subrange(subtrees(a, root as int, k + 1).len() as int, subtrees(a, root as int, n).len() as int);
                        assert(seq![root as int] + subtrees(a, root as int, n) =~= s1 + s2);
                        lemma_select_concat(a, s1, s2, test);
                    }
                    return Err(e);
                },
            };
            let ghost old_res = res@;
            let ghost sub_ids = sub@;
            res.append(&mut sub);
            proof {
                lemma_ids_concat(old_res, sub_ids);
            }
            k = k + 1;
        }
        Ok(res)
    }

    /// The nodes under the node at `root` whose first "compatible" property
    /// lists `compatible`, in the order of the blob.
    fn serach_compatible_inner(&self, compatible: &str, root: usize) -> (r: Result<
        Vec<usize>,
        ErrorNum,
    >)
        requires
            root < self@.nodes.len(),
        ensures
            match select(self@.nodes, subtree(self@.nodes, root as int), compatible_with(compatible@)) {
                Ok(ids) => r matches Ok(v) && ids_view(v@) == ids,
                Err(e) => r == Err::<Vec<usize>, ErrorNum>(e),
            },
        decreases self@.nodes.len() - root,
    {
        proof {
            use_type_invariant(self);
        }
        let ghost a = self@.nodes;
        let ghost test = compatible_with(compatible@);
        let node = &self.arena[root];
        assert(node@ == a[root as int]);
        let mut res: Vec<usize> = Vec::new();
        let hit = match node.get_value("compatible") {
            Ok(val) => match val.contains(compatible) {
                Ok(t) => t,
                Err(e) => {
                    proof {
                        assert(subtree(a, root as int) == seq![root as int] + subtrees(a, root as int, a[root as int].children.len() as int));
                    }
                    return Err(e);
                },
            },
            Err(_) => false,
        };
        if hit {
            res.push(root);
        }
        proof {
            assert(subtrees(a, root as int, 0) =~= Seq::<int>::empty());
            assert(seq![root as int] + subtrees(a, root as int, 0) =~= seq![root as int]);
            assert(seq![root as int].drop_first() =~= Seq::<int>::empty());
            assert(ids_view(res@) =~= if hit { seq![root as int] } else { Seq::<int>::empty() });
            assert(test(a[root as int]) == Ok::<bool, ErrorNum>(hit));
            assert(seq![root as int][0] == root as int);
            assert(select(a, Seq::<int>::empty(), test) == Ok::<Seq<int>, ErrorNum>(Seq::<int>::empty()));
            assert(seq![root as int] + Seq::<int>::empty() =~= seq![root as int]);
        }
        let mut k: usize = 0;
        while k < node.children.len()
            invariant
                a == self@.nodes,
                tree_model_wf(self@),
                test == compatible_with(compatible@),
                root < a.len(),
                node@ == a[root as int],
                k <= node.children@.len(),
                select(a, seq![root as int] + subtrees(a, root as int, k as int), test) == Ok::<Seq<int>, ErrorNum>(ids_view(res@)),
            decreases node.children@.len() - k,
        {
            let c = node.children[k];
            proof {
                assert(a[root as int].children[k as int] == c as int);
                assert(root < c < a.len());
                lemma_subtrees_step(a, root as int, k as int);
                assert(seq![root as int] + subtrees(a, root as int, k + 1) =~= (seq![root as int] + subtrees(a, root as int, k as int)) + subtree(a, c as int));
                lemma_select_concat(a, seq![root as int] + subtrees(a, root as int, k as int), subtree(a, c as int), test);
            }
            let mut sub = match self.serach_compatible_inner(compatible, c) {
                Ok(v) => v,
                Err(e) => {
                    proof {
                        let n = a[root as int].children.len() as int;
                        lemma_subtrees_prefix(a, root as int, k + 1, n);
                        let s1 = seq![root as int] + subtrees(a, root as int, k + 1);
                        let s2 = subtrees(a, root as int, n).subrange(subtrees(a, root as int, k + 1).len() as int, subtrees(a, root as int, n).len() as int);
                        assert(seq![root as int] + subtrees(a, root as int, n) =~= s1 + s2);
                        lemma_select_concat(a, s1, s2, test);
                    }
                    return Err(e);
                },
            };
            let ghost old_res = res@;
            let ghost sub_ids = sub@;
            res.append(&mut sub);
            proof {
                lemma_ids_concat(old_res, sub_ids);
            }
            k = k + 1;
        }
        Ok(res)
    }

    /// The nodes under the node at `root` that have a property named
    /// `field`, in the order of the blob.
    fn contains_field_inner(&self, field: &str, root: usize) -> (r: Result<
        Vec<usize>,
        ErrorNum,
    >)
        requires
            root < self@.nodes.len(),
        ensures
            match select(self@.nodes, subtree(self@.nodes, root as int), has_field(field@)) {
                Ok(ids) => r matches Ok(v) && ids_view(v@) == ids,
                Err(e) => r == Err::<Vec<usize>, ErrorNum>(e),
            },
        decreases self@.nodes.len() - root,
    {
        proof {
            use_type_invariant(self);
        }
        let ghost a = self@.nodes;
        let ghost test = has_field(field@);
        let node = &self.arena[root];
        assert(node@ == a[root as int]);
        let mut res: Vec<usize> = Vec::new();
        let hit = node.get_value(field).is_ok();
        if hit {
            res.push(root);
        }
        proof {
            assert(subtrees(a, root as int, 0) =~= Seq::<int>::empty());
            assert(seq![root as int] + subtrees(a, root as int, 0) =~= seq![root as int]);
            assert(seq![root as int].drop_first() =~= Seq::<int>::empty());
            assert(ids_view(res@) =~= if hit { seq![root as int] } else { Seq::<int>::empty() });
            assert(test(a[root as int]) == Ok::<bool, ErrorNum>(hit));
            assert(seq![root as int][0] == root as int);
            assert(select(a, Seq::<int>::empty(), test) == Ok::<Seq<int>, ErrorNum>(Seq::<int>::empty()));
            assert(seq![root as int] + Seq::<int>::empty() =~= seq![root as int]);
        }
        let mut k: usize = 0;
        while k < node.children.len()
            invariant
                a == self@.nodes,
                tree_model_wf(self@),
                test == has_field(field@),
                root < a.len(),
                node@ == a[root as int],
                k <= node.children@.len(),
                select(a, seq![root as int] + subtrees(a, root as int, k as int), test) == Ok::<Seq<int>, ErrorNum>(ids_view(res@)),
            decreases node.children@.len() - k,
        {
            let c = node.children[k];
            proof {
                assert(a[root as int].children[k as int] == c as int);
                assert(root < c < a.len());
                lemma_subtrees_step(a, root as int, k as int);
                assert(seq![root as int] + subtrees(a, root as int, k + 1) =~= (seq![root as int] + subtrees(a, root as int, k as int)) + subtree(a, c as int));
                lemma_select_concat(a, seq![root as int] + subtrees(a, root as int, k as int), subtree(a, c as int), test);
            }
            let mut sub = match self.contains_field_inner(field, c) {
                Ok(v) => v,
                Err(e) => {
                    proof {
                        let n = a[root as int].children.len() as int;
                        lemma_subtrees_prefix(a, root as int, k + 1, n);
                        let s1 = seq![root as int] + subtrees(a, root as int, k + 1);
                        let s2 = subtrees(a, root as int, n).subrange(subtrees(a, root as int, k + 1).len() as int, subtrees(a, root as int, n).len() as int);
                        assert(seq![root as int] + subtrees(a, root as int, n) =~= s1 + s2);
                        lemma_select_concat(a, s1, s2, test);
                    }
                    return Err(e);
                },
            };
            let ghost old_res = res@;
            let ghost sub_ids = sub@;
            res.append(&mut sub);
            proof {
                lemma_ids_concat(old_res, sub_ids);
            }
            k = k + 1;
        }
        Ok(res)
    }
}


/// The subtrees of the first `j` top nodes come first among those of the first `m`.
proof fn lemma_forest_prefix(a: Seq<NodeModel>, rs: Seq<int>, j: int, m: int)
    requires
        0 <= j <= m <= rs.len(),
    ensures
        forest(a, rs.take(j)).len() <= forest(a, rs.take(m)).len(),
        forest(a, rs.take(j)) =~= forest(a, rs.take(m)).subrange(0, forest(a, rs.take(j)).len() as int),
    decreases m - j,
{
    if j < m {
        lemma_forest_prefix(a, rs, j, m - 1);
        lemma_forest_step(a, rs, m - 1);
    }
}

/// A selection that fails on the first part of a run fails with the same error on all of it.
proof fn lemma_select_err_prefix(
    a: Seq<NodeModel>,
    s: Seq<int>,
    k: int,
    test: spec_fn(NodeModel) -> Result<bool, ErrorNum>,
)
    requires
        0 <= k <= s.len(),
        select(a, s.subrange(0, k), test) is Err,
    ensures
        select(a, s, test) == select(a, s.subrange(0, k), test),
{
    assert(s =~= s.subrange(0, k) + s.subrange(k, s.len() as int));
    lemma_select_concat(a, s.subrange(0, k), s.subrange(k, s.len() as int), test);
}

impl DeviceTree {
    /// The nodes whose first property named `field` equals `target`, in the
    /// order of the blob.
    pub fn search(&self, field: &str, target: DTBPropertyValue) -> (r: Result<Vec<usize>, ErrorNum>)
        ensures
            match select(self@.nodes, forest(self@.nodes, self@.roots), field_equals(field@, target@)) {
                Ok(ids) => r matches Ok(v) && ids_view(v@) == ids,
                Err(e) => r == Err::<Vec<usize>, ErrorNum>(e),
            },
    {
        proof {
            use_type_invariant(self);
        }
        let ghost a = self@.nodes;
        let ghost rs = self@.roots;
        let ghost test = field_equals(field@, target@);
        let mut res: Vec<usize> = Vec::new();
        let mut i: usize = 0;
        proof {
            assert(rs.take(0) =~= Seq::<int>::empty());
            assert(ids_view(res@) =~= Seq::<int>::empty());
        }
        while i < self.nodes.len()
            invariant
                a == self@.nodes,
                rs == self@.roots,
                tree_model_wf(self@),
                test == field_equals(field@, target@),
                i <= rs.len(),
                select(a, forest(a, rs.take(i as int)), test) == Ok::<Seq<int>, ErrorNum>(ids_view(res@)),
            decreases rs.len() - i,
        {
            let n = self.nodes[i];
            proof {
                assert(rs[i as int] == n as int);
                lemma_forest_step(a, rs, i as int);
                lemma_select_concat(a, forest(a, rs.take(i as int)), subtree(a, n as int), test);
            }
            let mut sub = match self.search_inner(field, &target, n) {
                Ok(v) => v,
                Err(e) => {
                    proof {
                        lemma_forest_prefix(a, rs, i + 1, rs.len() as int);
                        assert(rs.take(rs.len() as int) =~= rs);
                        lemma_select_err_prefix(a, forest(a, rs), forest(a, rs.take(i + 1)).len() as int, test);
                    }
                    return Err(e);
                },
            };
            let ghost old_res = res@;
            let ghost sub_ids = sub@;
            res.append(&mut sub);
            proof {
                lemma_ids_concat(old_res, sub_ids);
            }
            i = i + 1;
        }
        proof {
            assert(rs.take(rs.len() as int) =~= rs);
        }
        Ok(res)
    }

    /// The nodes whose first "compatible" property lists `compatible`, in the
    /// order of the blob.
    pub fn serach_compatible(&self, compatible: &str) -> (r: Result<Vec<usize>, ErrorNum>)
        ensures
            match select(self@.nodes, forest(self@.nodes, self@.roots), compatible_with(compatible@)) {
                Ok(ids) => r matches Ok(v) && ids_view(v@) == ids,
                Err(e) => r == Err::<Vec<usize>, ErrorNum>(e),
            },
    {
        proof {
            use_type_invariant(self);
        }
        let ghost a = self@.nodes;
        let ghost rs = self@.roots;
        let ghost test = compatible_with(compatible@);
        let mut res: Vec<usize> = Vec::new();
        let mut i: usize = 0;
        proof {
            assert(rs.take(0) =~= Seq::<int>::empty());
            assert(ids_view(res@) =~= Seq::<int>::empty());
        }
        while i < self.nodes.len()
            invariant
                a == self@.nodes,
                rs == self@.roots,
                tree_model_wf(self@),
                test == compatible_with(compatible@),
                i <= rs.len(),
                select(a, forest(a, rs.take(i as int)), test) == Ok::<Seq<int>, ErrorNum>(ids_view(res@)),
            decreases rs.len() - i,
        {
            let n = self.nodes[i];
            proof {
                assert(rs[i as int] == n as int);
                lemma_forest_step(a, rs, i as int);
                lemma_select_concat(a, forest(a, rs.take(i as int)), subtree(a, n as int), test);
            }
            let mut sub = match self.serach_compatible_inner(compatible, n) {
                Ok(v) => v,
                Err(e) => {
                    proof {
                        lemma_forest_prefix(a, rs, i + 1, rs.len() as int);
                        assert(rs.take(rs.len() as int) =~= rs);
                        lemma_select_err_prefix(a, forest(a, rs), forest(a, rs.take(i + 1)).len() as int, test);
                    }
                    return Err(e);
                },
            };
            let ghost old_res = res@;
            let ghost sub_ids = sub@;
            res.append(&mut sub);
            proof {
                lemma_ids_concat(old_res, sub_ids);
            }
            i = i + 1;
        }
        proof {
            assert(rs.take(rs.len() as int) =~= rs);
        }
        Ok(res)
    }

    /// The nodes that have a property named `field`, in the order of the blob.
    pub fn contains_field(&self, field: &str) -> (r: Result<Vec<usize>, ErrorNum>)
        ensures
            match select(self@.nodes, forest(self@.nodes, self@.roots), has_field(field@)) {
                Ok(ids) => r matches Ok(v) && ids_view(v@) == ids,
                Err(e) => r == Err::<Vec<usize>, ErrorNum>(e),
            },
    {
        proof {
            use_type_invariant(self);
        }
        let ghost a = self@.nodes;
        let ghost rs = self@.roots;
        let ghost test = has_field(field@);
        let mut res: Vec<usize> = Vec::new();
        let mut i: usize = 0;
        proof {
            assert(rs.take(0) =~= Seq::<int>::empty());
            assert(ids_view(res@) =~= Seq::<int>::empty());
        }
        while i < self.nodes.len()
            invariant
                a == self@.nodes,
                rs == self@.roots,
                tree_model_wf(self@),
                test == has_field(field@),
                i <= rs.len(),
                select(a, forest(a, rs.take(i as int)), test) == Ok::<Seq<int>, ErrorNum>(ids_view(res@)),
            decreases rs.len() - i,
        {
            let n = self.nodes[i];
            proof {
                assert(rs[i as int] == n as int);
                lemma_forest_step(a, rs, i as int);
                lemma_select_concat(a, forest(a, rs.take(i as int)), subtree(a, n as int), test);
            }
            let mut sub = match self.contains_field_inner(field, n) {
                Ok(v) => v,
                Err(e) => {
                    proof {
                        lemma_forest_prefix(a, rs, i + 1, rs.len() as int);
                        assert(rs.take(rs.len() as int) =~= rs);
                        lemma_select_err_prefix(a, forest(a, rs), forest(a, rs.take(i + 1)).len() as int, test);
                    }
                    return Err(e);
                },
            };
            let ghost old_res = res@;
            let ghost sub_ids = sub@;
            res.append(&mut sub);
            proof {
                lemma_ids_concat(old_res, sub_ids);
            }
            i = i + 1;
        }
        proof {
            assert(rs.take(rs.len() as int) =~= rs);
        }
        Ok(res)
    }

    /// The one node that `target` matches in `field` under the first top node
    /// that has any such node; `ENXIO` when no top node has one.
    pub fn search_single(&self, field: &str, target: DTBPropertyValue) -> (r: Result<usize, ErrorNum>)
        requires
            single_from(self@.nodes, self@.roots, field_equals(field@, target@), 0) is Some,
        ensures
            match single_from(self@.nodes, self@.roots, field_equals(field@, target@), 0) {
                Some(Ok(id)) => r == Ok::<usize, ErrorNum>(id as usize),
                Some(Err(e)) => r == Err::<usize, ErrorNum>(e),
                None => false,
            },
    {
        proof {
            use_type_invariant(self);
        }
        let ghost a = self@.nodes;
        let ghost rs = self@.roots;
        let ghost test = field_equals(field@, target@);
        let mut i: usize = 0;
        while i < self.nodes.len()
            invariant
                a == self@.nodes,
                rs == self@.roots,
                tree_model_wf(self@),
                test == field_equals(field@, target@),
                i <= rs.len(),
                single_from(a, rs, test, i as int) == single_from(a, rs, test, 0),
                single_from(a, rs, test, 0) is Some,
            decreases rs.len() - i,
        {
            let n = self.nodes[i];
            assert(rs[i as int] == n as int);
            let sub = match self.search_inner(field, &target, n) {
                Ok(v) => v,
                Err(e) => {
                    return Err(e);
                },
            };
            if sub.len() != 0 {
                assert(ids_view(sub@)[0] == sub@[0] as int);
                return Ok(sub[0]);
            }
            i = i + 1;
        }
        Err(ErrorNum::ENXIO)
    }

    /// The number of harts: of nodes whose "device_type" is "cpu".
    pub fn hart_count(&self) -> (r: usize)
        requires
            select(
                self@.nodes,
                forest(self@.nodes, self@.roots),
                field_equals("device_type"@, ValueModel::CStr("cpu"@)),
            ) is Ok,
        ensures
            r == select(
                self@.nodes,
                forest(self@.nodes, self@.roots),
                field_equals("device_type"@, ValueModel::CStr("cpu"@)),
            )->Ok_0.len(),
    {
        let target = DTBPropertyValue::CStr(owned("cpu"));
        match self.search("device_type", target) {
            Ok(v) => v.len(),
            Err(_) => 0,
        }
    }
}


/// Whether a node with properties `p` is compatible with `c`: some
/// "compatible" property lists it.  `None` when a "compatible" property that
/// is not a string list comes before any that lists it.
pub open spec fn compat_scan(p: Seq<(Seq<char>, ValueModel)>, c: Seq<char>) -> Option<bool>
    decreases p.len(),
{
    if p.len() == 0 {
        Some(false)
    } else if p[0].0 == "compatible"@ {
        match p[0].1 {
            ValueModel::CStrList(l) => if l.contains(c) {
                Some(true)
            } else {
                compat_scan(p.drop_first(), c)
            },
            _ => None,
        }
    } else {
        compat_scan(p.drop_first(), c)
    }
}

/// The number that the bytes `s` write in big-endian order.
pub open spec fn be_value(s: Seq<u8>) -> nat
    decreases s.len(),
{
    if s.len() == 0 {
        0
    } else {
        (be_value(s.drop_last()) * 256 + s.last()) as nat
    }
}

/// 256 to the power `n`.
pub open spec fn pow256(n: nat) -> nat
    decreases n,
{
    if n == 0 {
        1
    } else {
        256 * pow256((n - 1) as nat)
    }
}

proof fn lemma_pow256_mono(i: nat, j: nat)
    requires
        i <= j,
    ensures
        pow256(i) <= pow256(j),
    decreases j - i,
{
    if i < j {
        lemma_pow256_mono(i, (j - 1) as nat);
    }
}

proof fn lemma_be_value_bound(s: Seq<u8>)
    ensures
        be_value(s) < pow256(s.len()),
    decreases s.len(),
{
    if s.len() > 0 {
        lemma_be_value_bound(s.drop_last());
        let x = be_value(s.drop_last());
        let p = pow256((s.len() - 1) as nat);
        let l = s.last();
        assert(x * 256 + l < 256 * p) by (nonlinear_arith)
            requires
                x < p,
                l < 256,
        ;
    }
}

/// An address and a size from a "reg" property.
pub struct AddressSizePair {
    pub address: u64,
    pub size: u64,
}

/// The number of cells that the parent at `parent` gives under `key`, `dflt`
/// when there is no parent or it has no such property; `None` when its value
/// is not a 32-bit number.
pub open spec fn cells(t: TreeModel, parent: Option<int>, key: Seq<char>, dflt: u32) -> Option<u32> {
    match parent {
        None => Some(dflt),
        Some(p) => match lookup(t.nodes[p].props, key) {
            None => Some(dflt),
            Some(ValueModel::UInt32(v)) => Some(v),
            Some(_) => None,
        },
    }
}

/// The (address, size) pairs that `arr` holds, each address in `ab` bytes
/// followed by its size in `sb` bytes.
pub open spec fn reg_pairs(arr: Seq<u8>, ab: int, sb: int) -> Seq<(u64, u64)> {
    Seq::new(
        (arr.len() as int / (ab + sb)) as nat,
        |i: int|
            (
                be_value(arr.subrange(i * (ab + sb), i * (ab + sb) + ab)) as u64,
                be_value(arr.subrange(i * (ab + sb) + ab, (i + 1) * (ab + sb))) as u64,
            ),
    )
}

/// What `reg_value` gives for a node `n` of the tree `t`, the parent giving
/// `ac` address cells and `sc` size cells.
pub open spec fn reg_spec(n: NodeModel, ac: int, sc: int) -> Result<Seq<(u64, u64)>, ErrorNum> {
    match lookup(n.props, "reg"@) {
        None => Err(ErrorNum::EBADDTB),
        Some(ValueModel::Custom(arr)) => if arr.len() as int % (4 * ac + 4 * sc) != 0 {
            Err(ErrorNum::EBADDTB)
        } else {
            Ok(reg_pairs(arr, 4 * ac, 4 * sc))
        },
        Some(_) => Err(ErrorNum::EBADTYPE),
    }
}

/// No two properties of `p` are named "compatible".
pub open spec fn one_compatible(p: Seq<(Seq<char>, ValueModel)>) -> bool {
    forall|i: int, j: int|
        0 <= i < j < p.len() && #[trigger] p[i].0 == "compatible"@ ==> #[trigger] p[j].0 != "compatible"@
}

proof fn lemma_no_compatible(p: Seq<(Seq<char>, ValueModel)>, c: Seq<char>)
    requires
        forall|i: int| 0 <= i < p.len() ==> #[trigger] p[i].0 != "compatible"@,
    ensures
        compat_scan(p, c) == Some(false),
        lookup(p, "compatible"@) is None,
    decreases p.len(),
{
    if p.len() > 0 {
        assert(p[0].0 != "compatible"@);
        assert forall|i: int| 0 <= i < p.drop_first().len() implies #[trigger] p.drop_first()[i].0 != "compatible"@ by {
            assert(p.drop_first()[i] == p[i + 1]);
        }
        lemma_no_compatible(p.drop_first(), c);
    }
}

/// On a node with at most one "compatible" property, the test of
/// `serach_compatible` agrees with `is_compatible`: the same answer, and a
/// type error exactly where `is_compatible` has none to give.
pub proof fn lemma_compatible_agrees(n: NodeModel, c: Seq<char>)
    requires
        one_compatible(n.props),
    ensures
        match (compatible_with(c))(n) {
            Ok(b) => compat_scan(n.props, c) == Some(b),
            Err(_) => compat_scan(n.props, c) is None,
        },
    decreases n.props.len(),
{
    let p = n.props;
    if p.len() > 0 {
        let rest = p.drop_first();
        assert forall|i: int, j: int| 0 <= i < j < rest.len() && #[trigger] rest[i].0 == "compatible"@ implies #[trigger] rest[j].0
            != "compatible"@ by {
            assert(rest[i] == p[i + 1] && rest[j] == p[j + 1]);
        }
        if p[0].0 == "compatible"@ {
            assert forall|i: int| 0 <= i < rest.len() implies #[trigger] rest[i].0 != "compatible"@ by {
                assert(rest[i] == p[i + 1]);
            }
            lemma_no_compatible(rest, c);
        } else {
            lemma_compatible_agrees(NodeModel { props: rest, ..n }, c);
        }
    }
}

impl DTBNode {
    /// Whether some "compatible" property of the node lists `compatible`.
    pub fn is_compatible(&self, compatible: &str) -> (r: bool)
        requires
            compat_scan(self@.props, compatible@) is Some,
        ensures
            r == compat_scan(self@.props, compatible@)->0,
    {
        let ghost p = self@.props;
        let mut i: usize = 0;
        assert(p.subrange(0, p.len() as int) =~= p);
        while i < self.properties.len()
            invariant
                i <= self.properties@.len(),
                p == props_view(self.properties@),
                compat_scan(p, compatible@) == compat_scan(p.subrange(i as int, p.len() as int), compatible@),
                compat_scan(p, compatible@) is Some,
            decreases self.properties@.len() - i,
        {
            let ghost rest = p.subrange(i as int, p.len() as int);
            proof {
                assert(rest.drop_first() =~= p.subrange(i + 1, p.len() as int));
                assert(rest[0] == p[i as int]);
            }
            let entry = &self.properties[i];
            let name = &entry.0;
            let value = &entry.1;
            assert(rest[0] == (name@, value@));
            if str_eq(name.as_str(), "compatible") {
                if let DTBPropertyValue::CStrList(comp) = value {
                    let ghost t = super::dtb_value::texts(comp@);
                    assert(compat_scan(rest, compatible@) == if t.contains(compatible@) {
                        Some(true)
                    } else {
                        compat_scan(rest.drop_first(), compatible@)
                    });
                    let mut j: usize = 0;
                    while j < comp.len()
                        invariant
                            j <= comp@.len(),
                            t == super::dtb_value::texts(comp@),
                            p == self@.props,
                            compat_scan(p, compatible@) == if t.contains(compatible@) {
                                Some(true)
                            } else {
                                compat_scan(rest.drop_first(), compatible@)
                            },
                            forall|k: int| 0 <= k < j ==> #[trigger] comp@[k]@ != compatible@,
                        decreases comp@.len() - j,
                    {
                        if str_eq(comp[j].as_str(), compatible) {
                            proof {
                                assert(t[j as int] == compatible@);
                                assert(t.contains(compatible@));
                            }
                            return true;
                        }
                        j = j + 1;
                    }
                    proof {
                        assert(!t.contains(compatible@)) by {
                            if t.contains(compatible@) {
                                let k = choose|k: int| 0 <= k < t.len() && t[k] == compatible@;
                                assert(comp@[k]@ == compatible@);
                            }
                        }
                    }
                }
            }
            i = i + 1;
        }
        false
    }

    /// The (address, size) pairs of the node's "reg" property, read with the
    /// numbers of cells that its parent in `tree` gives (two and one by default).
    pub fn reg_value(&self, tree: &DeviceTree) -> (r: Result<Vec<AddressSizePair>, ErrorNum>)
        requires
            self@.parent matches Some(p) ==> 0 <= p < tree@.nodes.len(),
            cells(tree@, self@.parent, "#address-cells"@, 2) is Some,
            cells(tree@, self@.parent, "#size-cells"@, 1) is Some,
            4 * cells(tree@, self@.parent, "#address-cells"@, 2)->0 + 4 * cells(
                tree@,
                self@.parent,
                "#size-cells"@,
                1,
            )->0 <= usize::MAX,
            lookup(self@.props, "reg"@) matches Some(ValueModel::Custom(arr)) ==> {
                let ac = cells(tree@, self@.parent, "#address-cells"@, 2)->0;
                let sc = cells(tree@, self@.parent, "#size-cells"@, 1)->0;
                &&& ac + sc > 0
                &&& arr.len() > 0 && arr.len() as int % (4 * ac + 4 * sc) as int == 0 ==> ac <= 2 && sc <= 2
            },
        ensures
            match reg_spec(
                self@,
                cells(tree@, self@.parent, "#address-cells"@, 2)->0 as int,
                cells(tree@, self@.parent, "#size-cells"@, 1)->0 as int,
            ) {
                Ok(ps) => r matches Ok(v) && v@.len() == ps.len() && forall|i: int|
                    0 <= i < ps.len() ==> (#[trigger] v@[i]).address == ps[i].0 && v@[i].size
                        == ps[i].1,
                Err(e) => r matches Err(e2) && e2 == e,
            },
    {
        let ghost ac_spec = cells(tree@, self@.parent, "#address-cells"@, 2)->0;
        let ghost sc_spec = cells(tree@, self@.parent, "#size-cells"@, 1)->0;
        let address_cells: usize = match self.parent {
            Some(p) => {
                let v = match tree.arena[p].get_value("#address-cells") {
                    Ok(v) => v,
                    Err(_) => DTBPropertyValue::UInt32(2),
                };
                match v.get_u32() {
                    Ok(x) => x as usize,
                    Err(e) => {
                        return Err(e);
                    },
                }
            },
            None => 2,
        };
        let size_cells: usize = match self.parent {
            Some(p) => {
                let v = match tree.arena[p].get_value("#size-cells") {
                    Ok(v) => v,
                    Err(_) => DTBPropertyValue::UInt32(1),
                };
                match v.get_u32() {
                    Ok(x) => x as usize,
                    Err(e) => {
                        return Err(e);
                    },
                }
            },
            None => 1,
        };
        assert(address_cells == ac_spec && size_cells == sc_spec);
        let reg = self.get_value("reg")?;
        let byte_arr = reg.get_custom()?;
        let ghost arr = byte_arr@;
        let address_bytes = address_cells * 4;
        let size_bytes = size_cells * 4;
        let w = address_bytes + size_bytes;
        if byte_arr.len() % w != 0 {
            return Err(ErrorNum::EBADDTB);
        }
        let mut res: Vec<AddressSizePair> = Vec::new();
        let mut ptr: usize = 0;
        let ghost ps = reg_pairs(arr, address_bytes as int, size_bytes as int);
        assert(res@.len() * w == 0) by (nonlinear_arith)
            requires
                res@.len() == 0,
        ;
        while ptr < byte_arr.len()
            invariant
                arr == byte_arr@,
                w == address_bytes + size_bytes,
                w > 0,
                arr.len() as int % (w as int) == 0,
                arr.len() > 0 ==> address_bytes <= 8 && size_bytes <= 8,
                ps == reg_pairs(arr, address_bytes as int, size_bytes as int),
                ps.len() == arr.len() as int / (w as int),
                ptr == res@.len() * w,
                ptr <= arr.len(),
                forall|i: int|
                    0 <= i < res@.len() ==> (#[trigger] res@[i]).address == ps[i].0 && res@[i].size
                        == ps[i].1,
            decreases arr.len() - ptr,
        {
            let ghost k = res@.len() as int;
            proof {
                let wi = w as int;
                let l = arr.len() as int;
                assert(ptr + wi <= l && k < l / wi) by (nonlinear_arith)
                    requires
                        ptr == k * wi,
                        ptr < l,
                        l % wi == 0,
                        wi > 0,
                        k >= 0,
                ;
                assert((k + 1) * wi == ptr + wi) by (nonlinear_arith)
                    requires
                        ptr == k * wi,
                ;
            }
            let address = Self::be_bytes_to_u64(&byte_arr.as_slice()[ptr..ptr + address_bytes]);
            ptr = ptr + address_bytes;
            let size = Self::be_bytes_to_u64(&byte_arr.as_slice()[ptr..ptr + size_bytes]);
            ptr = ptr + size_bytes;
            res.push(AddressSizePair { address, size });
        }
        proof {
            let wi = w as int;
            let l = arr.len() as int;
            let k = res@.len() as int;
            assert(k == l / wi) by (nonlinear_arith)
                requires
                    k * wi == l,
                    wi > 0,
            ;
        }
        Ok(res)
    }

    /// The number that up to eight bytes write in big-endian order.
    fn be_bytes_to_u64(slice: &[u8]) -> (r: u64)
        requires
            slice@.len() <= 8,
        ensures
            r == be_value(slice@),
    {
        let mut acc: u64 = 0;
        let mut i: usize = 0;
        while i < slice.len()
            invariant
                i <= slice@.len() <= 8,
                acc == be_value(slice@.take(i as int)),
            decreases slice@.len() - i,
        {
            proof {
                lemma_be_value_bound(slice@.take(i + 1));
                lemma_pow256_mono((i + 1) as nat, 8);
                reveal_with_fuel(pow256, 9);
                assert(slice@.take(i + 1).drop_last() =~= slice@.take(i as int));
            }
            acc = acc * 256 + slice[i] as u64;
            i = i + 1;
        }
        assert(slice@.take(slice@.len() as int) =~= slice@);
        acc
    }
}

impl DeviceTree {
    /// The reserved memory regions.
    pub fn reserved_mem(&self) -> (r: &Vec<DTBMemReserve>)
        ensures
            r@.len() == self@.reserved.len(),
            forall|i: int|
                0 <= i < r@.len() ==> (#[trigger] r@[i]).start.0 == self@.reserved[i].0 && r@[i].length
                    == self@.reserved[i].1,
    {
        &self.reserved_mem
    }

    /// The positions of the nodes at the top of the tree.
    pub fn nodes(&self) -> (r: &Vec<usize>)
        ensures
            ids_view(r@) == self@.roots,
    {
        &self.nodes
    }

    /// The number of nodes in the tree.
    pub fn node_count(&self) -> (r: usize)
        ensures
            r == self@.nodes.len(),
    {
        self.arena.len()
    }

    /// The node at `id`.
    pub fn node(&self, id: usize) -> (r: &DTBNode)
        requires
            id < self@.nodes.len(),
        ensures
            r@ == self@.nodes[id as int],
    {
        &self.arena[id]
    }
}

} // verus!
