//! The directory listing: nodes built from a directory's raw children and
//! returned in listing order — directories first, then files, names ascending
//! within each group.
use vstd::prelude::*;
use vstd::multiset::Multiset;
use crate::order::{lex_le, lex_le_str, lemma_lex_le_total, lemma_lex_le_trans};

verus! {

broadcast use vstd::seq_lib::group_to_multiset_ensures, vstd::multiset::group_multiset_axioms;

/// One raw child of a directory, as the host hands it over: final path
/// segment, full path, and whether it is a directory.
pub struct DirEntry {
    pub name: String,
    pub path: String,
    pub is_dir: bool,
}

/// What one listing entry says, at the specification level.
#[verifier::ext_equal]
pub ghost struct EntryView {
    pub name: Seq<char>,
    pub path: Seq<char>,
    pub is_dir: bool,
}

impl DirEntry {
    pub open spec fn entry(self) -> EntryView {
        EntryView { name: self.name@, path: self.path@, is_dir: self.is_dir }
    }
}

/// One node of a directory listing. A directory carries an empty `children`
/// placeholder that the front end expands on demand; a file carries none.
pub struct FileNode {
    pub name: String,
    pub path: String,
    pub is_dir: bool,
    pub children: Option<Vec<FileNode>>,
}

impl FileNode {
    pub open spec fn entry(self) -> EntryView {
        EntryView { name: self.name@, path: self.path@, is_dir: self.is_dir }
    }

    /// The children placeholder matches the node's kind: present and empty
    /// for a directory, absent for a file.
    pub open spec fn wf(self) -> bool {
        match self.children {
            Some(c) => self.is_dir && c@.len() == 0,
            None => !self.is_dir,
        }
    }

    pub fn new(name: String, path: String, is_dir: bool) -> (n: FileNode)
        ensures
            n.wf(),
            n.entry() == (EntryView { name: name@, path: path@, is_dir }),
    {
        FileNode {
            name,
            path,
            is_dir,
            children: if is_dir { Some(Vec::new()) } else { None },
        }
    }
}

/// Listing order: every directory precedes every file; within the same kind,
/// names ascend in lexicographic order.
pub open spec fn entry_le(a: EntryView, b: EntryView) -> bool {
    if a.is_dir != b.is_dir {
        a.is_dir
    } else {
        lex_le(a.name, b.name)
    }
}

/// Any two entries are comparable under `entry_le`.
pub proof fn lemma_entry_le_total(a: EntryView, b: EntryView)
    ensures
        entry_le(a, b) || entry_le(b, a),
{
    if a.is_dir == b.is_dir {
        lemma_lex_le_total(a.name, b.name);
    }
}

/// `entry_le` is transitive.
pub proof fn lemma_entry_le_trans(a: EntryView, b: EntryView, c: EntryView)
    requires
        entry_le(a, b),
        entry_le(b, c),
    ensures
        entry_le(a, c),
{
    if a.is_dir == b.is_dir && b.is_dir == c.is_dir {
        lemma_lex_le_trans(a.name, b.name, c.name);
    }
}

/// The nodes stand in listing order.
pub open spec fn sorted_nodes(s: Seq<FileNode>) -> bool {
    forall|i: int, j: int|
        0 <= i < j < s.len() ==> #[trigger] entry_le(s[i].entry(), s[j].entry())
}

/// The entries of a node sequence.
pub open spec fn node_entries(s: Seq<FileNode>) -> Seq<EntryView> {
    s.map_values(|n: FileNode| n.entry())
}

/// The entries of a raw-child sequence.
pub open spec fn item_entries(s: Seq<DirEntry>) -> Seq<EntryView> {
    s.map_values(|e: DirEntry| e.entry())
}

/// An empty sequence contributes nothing to a multiset sum.
proof fn lemma_add_empty_seq<A>(s: Seq<A>, m: Multiset<A>)
    requires
        s.len() == 0,
    ensures
        s.to_multiset().add(m) == m,
{
    assert forall|a: A| s.to_multiset().count(a) == 0 by {
        assert(!s.contains(a));
    }
    assert(s.to_multiset().add(m) =~= m);
}

/// Decides `entry_le` between two nodes.
fn node_le(a: &FileNode, b: &FileNode) -> (r: bool)
    ensures
        r == entry_le(a.entry(), b.entry()),
{
    if a.is_dir != b.is_dir {
        a.is_dir
    } else {
        lex_le_str(a.name.as_str(), b.name.as_str())
    }
}

/// Inserts `x` into the sorted vector `out`, keeping listing order.
fn insert_sorted(out: &mut Vec<FileNode>, x: FileNode)
    requires
        sorted_nodes(old(out)@),
    ensures
        sorted_nodes(final(out)@),
        final(out)@.len() == old(out)@.len() + 1,
        final(out)@.to_multiset() == old(out)@.to_multiset().insert(x),
        node_entries(final(out)@).to_multiset() == node_entries(old(out)@).to_multiset().insert(
            x.entry(),
        ),
{
    let mut k: usize = 0;
    while k < out.len() && node_le(&out[k], &x)
        invariant
            k <= out@.len(),
            out@ == old(out)@,
            forall|m: int| 0 <= m < k ==> #[trigger] entry_le(out@[m].entry(), x.entry()),
        decreases out@.len() - k,
    {
        k = k + 1;
    }
    proof {
        if k < out@.len() {
            lemma_entry_le_total(out@[k as int].entry(), x.entry());
        }
        let t = out@.insert(k as int, x);
        assert forall|i: int, j: int| 0 <= i < j < t.len() implies #[trigger] entry_le(
            t[i].entry(),
            t[j].entry(),
        ) by {
            let ki = k as int;
            if j < ki {
                assert(entry_le(out@[i].entry(), out@[j].entry()));
            } else if i < ki && j == ki {
                assert(entry_le(out@[i].entry(), x.entry()));
            } else if i < ki && j > ki {
                assert(entry_le(out@[i].entry(), out@[j - 1].entry()));
            } else if i == ki && j > ki {
                if j - 1 > ki {
                    assert(entry_le(out@[ki].entry(), out@[j - 1].entry()));
                    lemma_entry_le_trans(x.entry(), out@[ki].entry(), out@[j - 1].entry());
                }
            } else {
                assert(entry_le(out@[i - 1].entry(), out@[j - 1].entry()));
            }
        }
        assert(node_entries(out@.insert(k as int, x)) =~= node_entries(out@).insert(
            k as int,
            x.entry(),
        ));
        assert(node_entries(out@).insert(k as int, x.entry()).to_multiset() == node_entries(
            out@,
        ).to_multiset().insert(x.entry()));
    }
    out.insert(k, x);
}

/// Sorts nodes into listing order. The result holds exactly the input nodes.
pub fn sort_nodes(nodes: Vec<FileNode>) -> (r: Vec<FileNode>)
    ensures
        sorted_nodes(r@),
        r@.len() == nodes@.len(),
        r@.to_multiset() == nodes@.to_multiset(),
        node_entries(r@).to_multiset() == node_entries(nodes@).to_multiset(),
{
    let mut rest = nodes;
    let mut out: Vec<FileNode> = Vec::new();
    proof {
        lemma_add_empty_seq(out@, rest@.to_multiset());
        lemma_add_empty_seq(node_entries(out@), node_entries(rest@).to_multiset());
    }
    while rest.len() > 0
        invariant
            sorted_nodes(out@),
            out@.len() + rest@.len() == nodes@.len(),
            out@.to_multiset().add(rest@.to_multiset()) == nodes@.to_multiset(),
            node_entries(out@).to_multiset().add(node_entries(rest@).to_multiset())
                == node_entries(nodes@).to_multiset(),
        decreases rest@.len(),
    {
        let ghost rest0 = rest@;
        let ghost out0 = out@;
        let x = rest.pop().unwrap();
        proof {
            assert(rest0 =~= rest@.push(x));
            assert(rest@.push(x).to_multiset() == rest@.to_multiset().insert(x));
            assert(node_entries(rest0) =~= node_entries(rest@).push(x.entry()));
            assert(node_entries(rest@).push(x.entry()).to_multiset() == node_entries(
                rest@,
            ).to_multiset().insert(x.entry()));
        }
        insert_sorted(&mut out, x);
        proof {
            assert(out@.to_multiset().add(rest@.to_multiset()) =~= out0.to_multiset().add(
                rest0.to_multiset(),
            ));
            assert(node_entries(out@).to_multiset().add(node_entries(rest@).to_multiset())
                =~= node_entries(out0).to_multiset().add(node_entries(rest0).to_multiset()));
        }
    }
    proof {
        lemma_add_empty_seq(rest@, Multiset::<FileNode>::empty());
        assert(out@.to_multiset().add(rest@.to_multiset()) =~= out@.to_multiset());
        lemma_add_empty_seq(node_entries(rest@), Multiset::<EntryView>::empty());
        assert(node_entries(out@).to_multiset().add(node_entries(rest@).to_multiset())
            =~= node_entries(out@).to_multiset());
    }
    out
}

/// Builds the listing of one directory from its raw children: one node per
/// child, each well formed, in listing order, with exactly the children's
/// names, paths and kinds.
pub fn read_directory_nodes(items: Vec<DirEntry>) -> (r: Vec<FileNode>)
    ensures
        r@.len() == items@.len(),
        forall|i: int| 0 <= i < r@.len() ==> (#[trigger] r@[i]).wf(),
        sorted_nodes(r@),
        node_entries(r@).to_multiset() == item_entries(items@).to_multiset(),
{
    let mut rest = items;
    let mut built: Vec<FileNode> = Vec::new();
    proof {
        lemma_add_empty_seq(node_entries(built@), item_entries(rest@).to_multiset());
    }
    while rest.len() > 0
        invariant
            forall|i: int| 0 <= i < built@.len() ==> (#[trigger] built@[i]).wf(),
            built@.len() + rest@.len() == items@.len(),
            node_entries(built@).to_multiset().add(item_entries(rest@).to_multiset())
                == item_entries(items@).to_multiset(),
        decreases rest@.len(),
    {
        let ghost rest0 = rest@;
        let ghost built0 = built@;
        let e = rest.pop().unwrap();
        let ghost ev = e.entry();
        proof {
            assert(rest0 =~= rest@.push(e));
            assert(item_entries(rest0) =~= item_entries(rest@).push(ev));
            assert(item_entries(rest@).push(ev).to_multiset() == item_entries(
                rest@,
            ).to_multiset().insert(ev));
        }
        let node = FileNode::new(e.name, e.path, e.is_dir);
        built.push(node);
        proof {
            assert(node_entries(built@) =~= node_entries(built0).push(ev));
            assert(node_entries(built0).push(ev).to_multiset() == node_entries(
                built0,
            ).to_multiset().insert(ev));
            assert(node_entries(built@).to_multiset().add(item_entries(rest@).to_multiset())
                =~= node_entries(built0).to_multiset().add(item_entries(rest0).to_multiset()));
        }
    }
    proof {
        lemma_add_empty_seq(item_entries(rest@), Multiset::<EntryView>::empty());
        assert(node_entries(built@).to_multiset().add(item_entries(rest@).to_multiset())
            =~= node_entries(built@).to_multiset());
    }
    let ghost built_view = built@;
    let r = sort_nodes(built);
    proof {
        assert forall|i: int| 0 <= i < r@.len() implies (#[trigger] r@[i]).wf() by {
            assert(r@.contains(r@[i]));
            assert(r@.to_multiset().count(r@[i]) > 0);
            assert(built_view.to_multiset().count(r@[i]) > 0);
            assert(built_view.contains(r@[i]));
            let j = choose|j: int| 0 <= j < built_view.len() && built_view[j] == r@[i];
            assert(built_view[j].wf());
        }
    }
    r
}

/// The listing-order law: in a sorted listing every directory precedes every
/// file, and within each kind names ascend in lexicographic order.
pub proof fn lemma_listing_groups(s: Seq<FileNode>)
    requires
        sorted_nodes(s),
    ensures
        forall|i: int, j: int|
            #![trigger s[i], s[j]]
            0 <= i < j < s.len() && s[j].is_dir ==> s[i].is_dir,
        forall|i: int, j: int|
            #![trigger s[i], s[j]]
            0 <= i < j < s.len() && s[i].is_dir == s[j].is_dir ==> lex_le(s[i].name@, s[j].name@),
{
    assert forall|i: int, j: int|
        #![trigger s[i], s[j]]
        0 <= i < j < s.len() implies (s[j].is_dir ==> s[i].is_dir) && (s[i].is_dir == s[j].is_dir
        ==> lex_le(s[i].name@, s[j].name@)) by {
        assert(entry_le(s[i].entry(), s[j].entry()));
    }
}

} // verus!
