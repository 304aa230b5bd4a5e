//! The vault as a tree of folders and notes, for file-tree views: in each
//! folder its subfolders come first, sorted by name, then its notes, sorted
//! by title.

use vstd::prelude::*;
use crate::text::{chars_of, string_of};
use crate::error::{ErrorView, StoreError};
use crate::store::Store;
use crate::note::{
    Note, note_outcome, note_title_spec, preview_spec, relative_dir_spec, relative_dir_path,
    meta_in_range, strings_view, stamp_shape,
};
use crate::tags::tags_spec;
use crate::vault::FoundFile;
use crate::sorting::{
    stable_sort, insert_pos, lemma_insert_pos_bounds, lemma_insert_pos_step, lemma_stable_sort_perm,
    lemma_stable_sort_sorted,
};

verus! {

broadcast use vstd::string::group_string_axioms;

/// What walking a directory of the vault found: a subdirectory with what
/// it holds, or a Markdown file.
#[derive(Debug)]
pub enum DirEntry {
    Dir { name: String, path: String, entries: Vec<DirEntry> },
    File(FoundFile),
}

/// A node of the vault tree.
#[derive(Debug)]
pub enum VaultNode {
    Folder { name: String, path: String, children: Vec<VaultNode> },
    Note {
        slug: String,
        title: String,
        created: String,
        modified: String,
        size: u64,
        preview: String,
        tags: Vec<String>,
    },
}

/// What a tree node is, its times as text aside (see `times_fit`).
pub enum Shape {
    Folder { name: Seq<char>, path: Seq<char>, children: Seq<Shape> },
    Note { slug: Seq<char>, title: Seq<char>, size: u64, preview: Seq<char>, tags: Seq<Seq<char>> },
}

/// The shape of a node.
pub open spec fn shape_of(n: VaultNode) -> Shape
    decreases n, 0nat,
{
    match n {
        VaultNode::Folder { name, path, children } => Shape::Folder {
            name: name@,
            path: path@,
            children: shapes_upto(children@, children@.len()),
        },
        VaultNode::Note { slug, title, created, modified, size, preview, tags } => Shape::Note {
            slug: slug@,
            title: title@,
            size,
            preview: preview@,
            tags: strings_view(tags@),
        },
    }
}

/// The shapes of the first `k` nodes.
pub open spec fn shapes_upto(v: Seq<VaultNode>, k: nat) -> Seq<Shape>
    decreases v, k,
{
    if k == 0 || k > v.len() {
        Seq::<Shape>::empty()
    } else {
        shapes_upto(v, (k - 1) as nat).push(shape_of(v[k - 1]))
    }
}

/// A note's times as text: the modification time empty (none recorded)
/// or a formatted date and time, and the creation time a formatted date
/// and time or else the same text as the modification time.
pub open spec fn times_shown(created: Seq<char>, modified: Seq<char>) -> bool {
    &&& (modified.len() == 0 || stamp_shape(modified))
    &&& (stamp_shape(created) || created == modified)
}

/// Every note in the node (the node itself or anywhere below it) shows its
/// times as `times_shown` says.
pub open spec fn times_fit(n: VaultNode) -> bool
    decreases n, 0nat,
{
    match n {
        VaultNode::Folder { children, .. } => all_fit_upto(children@, children@.len()),
        VaultNode::Note { created, modified, .. } => times_shown(created@, modified@),
    }
}

/// The first `k` nodes all fit.
pub open spec fn all_fit_upto(v: Seq<VaultNode>, k: nat) -> bool
    decreases v, k,
{
    if k == 0 || k > v.len() {
        true
    } else {
        all_fit_upto(v, (k - 1) as nat) && times_fit(v[k - 1])
    }
}

proof fn lemma_all_fit(v: Seq<VaultNode>, k: nat)
    requires
        k <= v.len(),
    ensures
        all_fit_upto(v, k) <==> forall|i: int| 0 <= i < k ==> #[trigger] times_fit(v[i]),
    decreases k,
{
    if k > 0 {
        lemma_all_fit(v, (k - 1) as nat);
        if forall|i: int| 0 <= i < k ==> #[trigger] times_fit(v[i]) {
            assert(times_fit(v[k - 1]));
            assert forall|i: int| 0 <= i < k - 1 implies #[trigger] times_fit(v[i]) by {
                assert(times_fit(v[i]));
            }
        }
    }
}

/// The shapes of nodes.
pub open spec fn shapes(v: Seq<VaultNode>) -> Seq<Shape> {
    shapes_upto(v, v.len())
}

/// What a node is listed by: a folder's name, a note's title.
pub open spec fn label(s: Shape) -> Seq<char> {
    match s {
        Shape::Folder { name, .. } => name,
        Shape::Note { title, .. } => title,
    }
}

/// `a` comes before `b` in the order of `str` (by code points, the first
/// difference deciding, a prefix first).
pub open spec fn text_lt(a: Seq<char>, b: Seq<char>) -> bool
    decreases a.len(),
{
    if a.len() == 0 {
        b.len() > 0
    } else if b.len() == 0 {
        false
    } else if a[0] != b[0] {
        a[0] < b[0]
    } else {
        text_lt(a.drop_first(), b.drop_first())
    }
}

/// Smaller labels first: `a` may stay before `b` unless `b`'s label is
/// smaller.
pub open spec fn by_label() -> spec_fn(Shape, Shape) -> bool {
    |a: Shape, b: Shape| !text_lt(label(b), label(a))
}

/// The folders and the notes made from the first `k` entries, in the order
/// found; the first error stops the walk.
pub open spec fn gather(root: Seq<char>, es: Seq<DirEntry>, k: nat) -> Result<
    (Seq<Shape>, Seq<Shape>),
    ErrorView,
>
    decreases es, 0nat, k,
{
    if k == 0 || k > es.len() {
        Ok((Seq::<Shape>::empty(), Seq::<Shape>::empty()))
    } else {
        match gather(root, es, (k - 1) as nat) {
            Err(e) => Err(e),
            Ok((folders, notes)) => match es[k - 1] {
                DirEntry::Dir { name, path, entries } => match relative_dir_spec(root, path@) {
                    Err(e) => Err(e),
                    Ok(rel) => match tree_spec(root, entries@) {
                        Err(e) => Err(e),
                        Ok(children) => Ok(
                            (folders.push(Shape::Folder { name: name@, path: rel, children }), notes),
                        ),
                    },
                },
                DirEntry::File(f) => {
                    let fv = f@;
                    match note_outcome(root, fv.path, fv.content, fv.meta) {
                        Err(_) => Ok((folders, notes)),
                        Ok(id) => {
                            let c = fv.content->Some_0;
                            let m = fv.meta->Some_0;
                            Ok(
                                (
                                    folders,
                                    notes.push(
                                        Shape::Note {
                                            slug: id,
                                            title: note_title_spec(c, id),
                                            size: m.size,
                                            preview: preview_spec(c),
                                            tags: tags_spec(c),
                                        },
                                    ),
                                ),
                            )
                        },
                    }
                },
            },
        }
    }
}

/// The tree of a directory's entries: its folders sorted by name, then its
/// notes sorted by title (both stably).
pub open spec fn tree_spec(root: Seq<char>, es: Seq<DirEntry>) -> Result<Seq<Shape>, ErrorView>
    decreases es, 1nat, 0nat,
{
    match gather(root, es, es.len()) {
        Err(e) => Err(e),
        Ok((folders, notes)) => Ok(stable_sort(folders, by_label()) + stable_sort(notes, by_label())),
    }
}

/// Every file's times in the walked tree can be shown.
pub open spec fn tree_in_range(es: Seq<DirEntry>) -> bool
    decreases es,
{
    forall|k: int|
        0 <= k < es.len() ==> match #[trigger] es[k] {
            DirEntry::File(f) => f.meta matches Some(m) ==> meta_in_range(m),
            DirEntry::Dir { entries, .. } => tree_in_range(entries@),
        }
}

// ---------------------------------------------------------------------------
// Executable
// ---------------------------------------------------------------------------

/// Whether `a` comes before `b` in the order of `str`.
pub fn text_less(a: &Vec<char>, b: &Vec<char>) -> (res: bool)
    ensures
        res == text_lt(a@, b@),
{
    let mut i: usize = 0;
    assert(a@.skip(0) =~= a@);
    assert(b@.skip(0) =~= b@);
    while i < a.len() && i < b.len() && a[i] == b[i]
        invariant
            i <= a.len(),
            i <= b.len(),
            text_lt(a@, b@) == text_lt(a@.skip(i as int), b@.skip(i as int)),
        decreases a.len() - i,
    {
        assert(a@.skip(i as int).drop_first() =~= a@.skip(i + 1));
        assert(b@.skip(i as int).drop_first() =~= b@.skip(i + 1));
        i = i + 1;
    }
    let ghost sa = a@.skip(i as int);
    let ghost sb = b@.skip(i as int);
    if i == a.len() {
        i < b.len()
    } else if i == b.len() {
        false
    } else {
        assert(sa[0] == a@[i as int] && sb[0] == b@[i as int]);
        a[i] < b[i]
    }
}

/// The label of a node: a folder's name, a note's title.
pub fn folder_name(node: &VaultNode) -> (res: &String)
    ensures
        res@ == label(shape_of(*node)),
{
    match node {
        VaultNode::Folder { name, .. } => name,
        VaultNode::Note { title, .. } => title,
    }
}

/// The label of a node: a note's title, a folder's name.
pub fn note_title(node: &VaultNode) -> (res: &String)
    ensures
        res@ == label(shape_of(*node)),
{
    match node {
        VaultNode::Note { title, .. } => title,
        VaultNode::Folder { name, .. } => name,
    }
}

proof fn lemma_shapes_upto_prefix(v: Seq<VaultNode>, w: Seq<VaultNode>, k: nat)
    requires
        k <= w.len(),
        k <= v.len(),
        forall|i: int| 0 <= i < k ==> v[i] == w[i],
    ensures
        shapes_upto(v, k) == shapes_upto(w, k),
    decreases k,
{
    if k > 0 {
        lemma_shapes_upto_prefix(v, w, (k - 1) as nat);
    }
}

proof fn lemma_shapes_index(v: Seq<VaultNode>, k: nat)
    requires
        k <= v.len(),
    ensures
        shapes_upto(v, k).len() == k,
        forall|i: int| 0 <= i < k ==> #[trigger] shapes_upto(v, k)[i] == shape_of(v[i]),
    decreases k,
{
    if k > 0 {
        lemma_shapes_index(v, (k - 1) as nat);
    }
}

proof fn lemma_shapes_insert(v: Seq<VaultNode>, p: int, x: VaultNode)
    requires
        0 <= p <= v.len(),
    ensures
        shapes(v.insert(p, x)) == shapes(v).insert(p, shape_of(x)),
{
    let w = v.insert(p, x);
    lemma_shapes_index(w, w.len());
    lemma_shapes_index(v, v.len());
    assert(shapes(w) =~= shapes(v).insert(p, shape_of(x)));
}

proof fn lemma_shapes_append(a: Seq<VaultNode>, b: Seq<VaultNode>)
    ensures
        shapes(a + b) == shapes(a) + shapes(b),
{
    lemma_shapes_index(a + b, (a + b).len());
    lemma_shapes_index(a, a.len());
    lemma_shapes_index(b, b.len());
    assert(shapes(a + b) =~= shapes(a) + shapes(b));
}

/// Puts `node` among `out`, which is sorted by label, after every node whose
/// label is not larger.
fn insert_by_label(out: &mut Vec<VaultNode>, node: VaultNode)
    ensures
        shapes(final(out)@) == shapes(old(out)@).insert(
            insert_pos(shapes(old(out)@), shape_of(node), by_label()),
            shape_of(node),
        ),
        exists|p: int| 0 <= p <= old(out).len() && final(out)@ == old(out)@.insert(p, node),
{
    let ghost s = shapes(out@);
    let ghost x = shape_of(node);
    proof {
        lemma_shapes_index(out@, out@.len());
    }
    let key = chars_of(folder_name(&node).as_str());
    let mut p: usize = 0;
    assert(s.skip(0) =~= s);
    while p < out.len() && !text_less(&key, &chars_of(folder_name(&out[p]).as_str()))
        invariant
            p <= out.len(),
            s == shapes(out@),
            s.len() == out.len(),
            forall|i: int| 0 <= i < out.len() ==> #[trigger] s[i] == shape_of(out@[i]),
            key@ == label(x),
            insert_pos(s, x, by_label()) == p + insert_pos(s.skip(p as int), x, by_label()),
        decreases out.len() - p,
    {
        assert(s[p as int] == shape_of(out@[p as int]));
        assert(by_label()(s[p as int], x));
        proof {
            lemma_insert_pos_step(s, x, by_label(), p as int);
        }
        p = p + 1;
    }
    proof {
        let t = s.skip(p as int);
        if p < out.len() {
            assert(s[p as int] == shape_of(out@[p as int]));
            assert(t[0] == s[p as int]);
        }
        lemma_insert_pos_bounds(s, x, by_label());
    }
    let ghost before = out@;
    out.insert(p, node);
    proof {
        lemma_shapes_insert(before, p as int, node);
    }
}

/// The tree of a directory's entries.
fn read_tree(root: &str, entries: Vec<DirEntry>) -> (res: Result<Vec<VaultNode>, StoreError>)
    requires
        tree_in_range(entries@),
    ensures
        match res {
            Ok(nodes) => tree_spec(root@, entries@) == Ok::<Seq<Shape>, ErrorView>(shapes(nodes@))
                && forall|i: int| 0 <= i < nodes.len() ==> #[trigger] times_fit(nodes@[i]),
            Err(e) => tree_spec(root@, entries@) == Err::<Seq<Shape>, ErrorView>(e@),
        },
    decreases entries@,
{
    let ghost orig = entries@;
    let mut rest = entries;
    let mut folders: Vec<VaultNode> = Vec::new();
    let mut notes: Vec<VaultNode> = Vec::new();
    let n = rest.len();
    let mut k: usize = 0;
    while k < n
        invariant
            orig == entries@,
            n == orig.len(),
            k <= n,
            rest@ == orig.skip(k as int),
            tree_in_range(orig),
            gather(root@, orig, k as nat) matches Ok((fs, ns)) && stable_sort(fs, by_label()) == shapes(
                folders@,
            ) && stable_sort(ns, by_label()) == shapes(notes@),
            forall|i: int| 0 <= i < folders.len() ==> #[trigger] times_fit(folders@[i]),
            forall|i: int| 0 <= i < notes.len() ==> #[trigger] times_fit(notes@[i]),
        decreases n - k,
    {
        let e = rest.remove(0);
        assert(e == orig[k as int]);
        assert(orig.skip(k as int).drop_first() =~= orig.skip(k + 1));
        let ghost prev = gather(root@, orig, k as nat);
        match e {
            DirEntry::Dir { name, path, entries: inner } => {
                assert(tree_in_range(inner@));
                let ghost iv = inner;
                let rel = match relative_dir_path(root, path.as_str()) {
                    Ok(r) => r,
                    Err(err) => {
                        proof {
                            assert(gather(root@, orig, (k + 1) as nat) == Err::<
                                (Seq<Shape>, Seq<Shape>),
                                ErrorView,
                            >(err@));
                            lemma_gather_err_stays(root@, orig, (k + 1) as nat, n as nat);
                            assert(gather(root@, orig, orig.len()) == Err::<(Seq<Shape>, Seq<Shape>), ErrorView>(err@));
                            assert(tree_spec(root@, orig) == Err::<Seq<Shape>, ErrorView>(err@));
                        }
                        return Err(err);
                    },
                };
                proof {
                    assert(decreases_to!(orig => orig[k as int]));
                    assert(decreases_to!(orig[k as int] => iv));
                    assert(decreases_to!(iv => iv@));
                    assert(decreases_to!(orig => iv@));
                }
                let children = match read_tree(root, inner) {
                    Ok(c) => c,
                    Err(err) => {
                        proof {
                            assert(gather(root@, orig, (k + 1) as nat) == Err::<
                                (Seq<Shape>, Seq<Shape>),
                                ErrorView,
                            >(err@));
                            lemma_gather_err_stays(root@, orig, (k + 1) as nat, n as nat);
                            assert(gather(root@, orig, orig.len()) == Err::<(Seq<Shape>, Seq<Shape>), ErrorView>(err@));
                            assert(tree_spec(root@, orig) == Err::<Seq<Shape>, ErrorView>(err@));
                        }
                        return Err(err);
                    },
                };
                let ghost fs = prev->Ok_0.0;
                let ghost ns = prev->Ok_0.1;
                let ghost x = Shape::Folder { name: name@, path: rel@, children: shapes(children@) };
                let node = VaultNode::Folder { name, path: rel, children };
                assert(shape_of(node) == x);
                proof {
                    lemma_all_fit(children@, children@.len());
                }
                assert(times_fit(node));
                let ghost fb = folders@;
                insert_by_label(&mut folders, node);
                proof {
                    let p = choose|p: int| 0 <= p <= fb.len() && folders@ == fb.insert(p, node);
                    assert forall|i: int| 0 <= i < folders.len() implies #[trigger] times_fit(folders@[i]) by {
                        if i < p {
                            assert(folders@[i] == fb[i]);
                        } else if i > p {
                            assert(folders@[i] == fb[i - 1]);
                        }
                    }
                }
                proof {
                    assert(gather(root@, orig, (k + 1) as nat) == Ok::<(Seq<Shape>, Seq<Shape>), ErrorView>(
                        (fs.push(x), ns),
                    ));
                    assert(fs.push(x).drop_last() =~= fs);
                }
            },
            DirEntry::File(f) => {
                let ghost fv = f@;
                assert(crate::note::opt_seq(f.content) == fv.content);
                let ghost fs = prev->Ok_0.0;
                let ghost ns = prev->Ok_0.1;
                match Note::from_path(root, f.path.as_str(), f.content, f.meta) {
                    Ok(note) => {
                        let ghost c = fv.content->Some_0;
                        let ghost x = Shape::Note {
                            slug: note.name@,
                            title: note_title_spec(c, note.name@),
                            size: fv.meta->Some_0.size,
                            preview: preview_spec(c),
                            tags: tags_spec(c),
                        };
                        let node = VaultNode::Note {
                            slug: note.name,
                            title: note.title,
                            created: note.created,
                            modified: note.modified,
                            size: note.size,
                            preview: note.preview,
                            tags: note.tags,
                        };
                        assert(shape_of(node) == x);
                        assert(times_fit(node));
                        let ghost nb = notes@;
                        insert_by_label(&mut notes, node);
                        proof {
                            let p = choose|p: int| 0 <= p <= nb.len() && notes@ == nb.insert(p, node);
                            assert forall|i: int| 0 <= i < notes.len() implies #[trigger] times_fit(notes@[i]) by {
                                if i < p {
                                    assert(notes@[i] == nb[i]);
                                } else if i > p {
                                    assert(notes@[i] == nb[i - 1]);
                                }
                            }
                        }
                        proof {
                            assert(gather(root@, orig, (k + 1) as nat) == Ok::<
                                (Seq<Shape>, Seq<Shape>),
                                ErrorView,
                            >((fs, ns.push(x))));
                            assert(ns.push(x).drop_last() =~= ns);
                        }
                    },
                    Err(_) => {
                        assert(gather(root@, orig, (k + 1) as nat) == Ok::<
                            (Seq<Shape>, Seq<Shape>),
                            ErrorView,
                        >((fs, ns)));
                    },
                }
            },
        }
        k = k + 1;
    }
    let ghost fnodes = folders@;
    let ghost nnodes = notes@;
    let mut all = folders;
    let mut rest = notes;
    all.append(&mut rest);
    proof {
        lemma_shapes_append(fnodes, nnodes);
        assert(all@ == fnodes + nnodes);
        assert forall|i: int| 0 <= i < all.len() implies #[trigger] times_fit(all@[i]) by {
            if i < fnodes.len() {
                assert(all@[i] == fnodes[i]);
            } else {
                assert(all@[i] == nnodes[i - fnodes.len()]);
            }
        }
    }
    Ok(all)
}

/// Once the walk has failed, it stays failed with the same error.
proof fn lemma_gather_err_stays(root: Seq<char>, es: Seq<DirEntry>, k: nat, n: nat)
    requires
        k <= n <= es.len(),
        gather(root, es, k) is Err,
    ensures
        gather(root, es, n) == gather(root, es, k),
    decreases n - k,
{
    if n > k {
        lemma_gather_err_stays(root, es, k, (n - 1) as nat);
    }
}

impl Store {
    /// The vault as a tree (folders and notes) for file-tree views, from
    /// what walking its directory found.
    pub fn list_tree(&self, entries: Vec<DirEntry>) -> (res: Result<Vec<VaultNode>, StoreError>)
        requires
            tree_in_range(entries@),
        ensures
            match res {
                Ok(nodes) => tree_spec(self.root@, entries@) == Ok::<Seq<Shape>, ErrorView>(shapes(nodes@))
                    && forall|i: int| 0 <= i < nodes.len() ==> #[trigger] times_fit(nodes@[i]),
                Err(e) => tree_spec(self.root@, entries@) == Err::<Seq<Shape>, ErrorView>(e@),
            },
    {
        read_tree(self.root.as_str(), entries)
    }
}

/// `a` comes before `b` in `str` order exactly when, at the first place
/// where they differ, `a` has the smaller character, or `a` is a proper
/// prefix of `b`.
pub proof fn law_text_order(a: Seq<char>, b: Seq<char>)
    ensures
        text_lt(a, b) <==> ((exists|i: int|
            0 <= i < a.len() && i < b.len() && a.take(i) == b.take(i) && (#[trigger] a[i]) < b[i]) || (a.len() < b.len() && a == b.take(a.len() as int))),
    decreases a.len(),
{
    if a.len() == 0 {
        assert(a =~= b.take(0));
        if b.len() == 0 {
            assert(!(exists|i: int|
                0 <= i < a.len() && i < b.len() && a.take(i) == b.take(i) && (#[trigger] a[i]) < b[i]));
        }
    } else if b.len() == 0 {
    } else if a[0] != b[0] {
        if a[0] < b[0] {
            assert(a.take(0) =~= b.take(0));
            assert(a[0] < b[0]);
        } else {
            assert forall|i: int|
                0 <= i < a.len() && i < b.len() && a.take(i) == b.take(i) implies !((#[trigger] a[i]) < b[i]) by {
                if i > 0 {
                    assert(a.take(i)[0] == b.take(i)[0]);
                }
            }
            if a.len() < b.len() && a == b.take(a.len() as int) {
                assert(a[0] == b.take(a.len() as int)[0]);
            }
        }
    } else {
        let a1 = a.drop_first();
        let b1 = b.drop_first();
        law_text_order(a1, b1);
        if exists|i: int|
            0 <= i < a1.len() && i < b1.len() && a1.take(i) == b1.take(i) && (#[trigger] a1[i]) < b1[i] {
            let i = choose|i: int|
                0 <= i < a1.len() && i < b1.len() && a1.take(i) == b1.take(i) && (#[trigger] a1[i]) < b1[i];
            assert(a.take(i + 1) =~= seq![a[0]] + a1.take(i));
            assert(b.take(i + 1) =~= seq![b[0]] + b1.take(i));
            assert(a[i + 1] == a1[i] && b[i + 1] == b1[i]);
        }
        if exists|i: int|
            0 <= i < a.len() && i < b.len() && a.take(i) == b.take(i) && (#[trigger] a[i]) < b[i] {
            let i = choose|i: int|
                0 <= i < a.len() && i < b.len() && a.take(i) == b.take(i) && (#[trigger] a[i]) < b[i];
            assert(i > 0);
            assert(a1.take(i - 1) =~= a.take(i).drop_first());
            assert(b1.take(i - 1) =~= b.take(i).drop_first());
            assert(a1[i - 1] == a[i] && b1[i - 1] == b[i]);
        }
        if a1.len() < b1.len() && a1 == b1.take(a1.len() as int) {
            assert(a =~= b.take(a.len() as int)) by {
                assert forall|k: int| 0 <= k < a.len() implies a[k] == b.take(a.len() as int)[k] by {
                    if k > 0 {
                        assert(a[k] == a1[k - 1]);
                        assert(b1.take(a1.len() as int)[k - 1] == b[k]);
                    }
                }
            }
        }
        if a.len() < b.len() && a == b.take(a.len() as int) {
            assert(a1 =~= b1.take(a1.len() as int)) by {
                assert forall|k: int| 0 <= k < a1.len() implies a1[k] == b1.take(a1.len() as int)[k] by {
                    assert(a1[k] == a[k + 1]);
                    assert(b.take(a.len() as int)[k + 1] == b[k + 1]);
                }
            }
        }
    }
}

proof fn lemma_text_lt_asym(a: Seq<char>, b: Seq<char>)
    ensures
        text_lt(a, b) ==> !text_lt(b, a),
    decreases a.len(),
{
    if a.len() > 0 && b.len() > 0 && a[0] == b[0] {
        lemma_text_lt_asym(a.drop_first(), b.drop_first());
    }
}

proof fn lemma_text_lt_total(a: Seq<char>, b: Seq<char>)
    ensures
        a != b ==> text_lt(a, b) || text_lt(b, a),
    decreases a.len(),
{
    if a.len() > 0 && b.len() > 0 && a[0] == b[0] {
        lemma_text_lt_total(a.drop_first(), b.drop_first());
        if a != b {
            assert(a.drop_first() != b.drop_first()) by {
                if a.drop_first() == b.drop_first() {
                    assert(a =~= seq![a[0]] + a.drop_first());
                    assert(b =~= seq![b[0]] + b.drop_first());
                }
            }
        }
    } else if a.len() == 0 && b.len() == 0 {
        assert(a =~= b);
    } else if a.len() > 0 && b.len() > 0 {
    }
}

proof fn lemma_text_lt_trans(a: Seq<char>, b: Seq<char>, c: Seq<char>)
    ensures
        text_lt(a, b) && text_lt(b, c) ==> text_lt(a, c),
    decreases a.len(),
{
    if a.len() > 0 && b.len() > 0 && c.len() > 0 && a[0] == b[0] && b[0] == c[0] {
        lemma_text_lt_trans(a.drop_first(), b.drop_first(), c.drop_first());
    }
}

proof fn lemma_by_label_order()
    ensures
        forall|x: Shape, y: Shape| #[trigger] by_label()(x, y) || #[trigger] by_label()(y, x),
        forall|x: Shape, y: Shape, z: Shape|
            #[trigger] by_label()(x, y) && #[trigger] by_label()(y, z) ==> by_label()(x, z),
{
    assert forall|x: Shape, y: Shape| #[trigger] by_label()(x, y) || #[trigger] by_label()(y, x) by {
        lemma_text_lt_asym(label(x), label(y));
    }
    assert forall|x: Shape, y: Shape, z: Shape|
        #[trigger] by_label()(x, y) && #[trigger] by_label()(y, z) implies by_label()(x, z) by {
        let (lx, ly, lz) = (label(x), label(y), label(z));
        if text_lt(lz, lx) {
            lemma_text_lt_total(lx, ly);
            if lx == ly {
            } else {
                lemma_text_lt_trans(lz, lx, ly);
            }
        }
    }
}

proof fn lemma_gather_kinds(root: Seq<char>, es: Seq<DirEntry>, k: nat)
    ensures
        gather(root, es, k) matches Ok((fs, ns)) ==> (forall|i: int| 0 <= i < fs.len() ==> #[trigger] fs[i] is Folder)
            && (forall|i: int| 0 <= i < ns.len() ==> #[trigger] ns[i] is Note),
    decreases k,
{
    if k > 0 && k <= es.len() {
        lemma_gather_kinds(root, es, (k - 1) as nat);
    }
}

proof fn lemma_sorted_kind(s: Seq<Shape>, folder: bool)
    requires
        forall|i: int| 0 <= i < s.len() ==> (#[trigger] s[i] is Folder) == folder,
    ensures
        forall|i: int| 0 <= i < stable_sort(s, by_label()).len() ==> (#[trigger] stable_sort(s, by_label())[i] is Folder)
            == folder,
        stable_sort(s, by_label()).len() == s.len(),
{
    broadcast use vstd::seq_lib::group_to_multiset_ensures;

    lemma_stable_sort_perm(s, by_label());
    let t = stable_sort(s, by_label());
    assert(t.len() == t.to_multiset().len());
    assert(s.len() == s.to_multiset().len());
    assert forall|i: int| 0 <= i < t.len() implies (#[trigger] t[i] is Folder) == folder by {
        assert(t.contains(t[i]));
        assert(t.to_multiset().count(t[i]) > 0);
        assert(s.to_multiset().count(t[i]) > 0);
        assert(s.contains(t[i]));
        let j = choose|j: int| 0 <= j < s.len() && s[j] == t[i];
    }
}

/// A directory's tree lists its folders first and then its notes, and the
/// folders, like the notes, come in `str` order of their labels: for two
/// neighbours of the same kind, the second's label never comes before the
/// first's.
pub proof fn law_tree_sorted(root: Seq<char>, es: Seq<DirEntry>)
    ensures
        tree_spec(root, es) matches Ok(v) ==> {
            &&& forall|i: int, j: int| 0 <= i < j < v.len() && #[trigger] v[i] is Note ==> #[trigger] v[j] is Note
            &&& forall|i: int|
                0 <= i < v.len() - 1 && (#[trigger] v[i] is Folder) == (v[i + 1] is Folder) ==> !text_lt(
                    label(v[i + 1]),
                    label(v[i]),
                )
        },
{
    lemma_gather_kinds(root, es, es.len());
    lemma_by_label_order();
    match gather(root, es, es.len()) {
        Ok((fs, ns)) => {
            let sf = stable_sort(fs, by_label());
            let sn = stable_sort(ns, by_label());
            lemma_sorted_kind(fs, true);
            lemma_sorted_kind(ns, false);
            lemma_stable_sort_sorted(fs, by_label());
            lemma_stable_sort_sorted(ns, by_label());
            let v = sf + sn;
            assert forall|i: int, j: int| 0 <= i < j < v.len() && #[trigger] v[i] is Note implies #[trigger] v[j] is Note by {
                if i < sf.len() {
                    assert(v[i] == sf[i]);
                }
                if j >= sf.len() {
                    assert(v[j] == sn[j - sf.len()]);
                } else {
                    assert(v[i] == sf[i]);
                }
            }
            assert forall|i: int|
                0 <= i < v.len() - 1 && (#[trigger] v[i] is Folder) == (v[i + 1] is Folder) implies !text_lt(
                label(v[i + 1]),
                label(v[i]),
            ) by {
                if i + 1 < sf.len() {
                    assert(v[i] == sf[i] && v[i + 1] == sf[i + 1]);
                    assert(by_label()(sf[i], sf[i + 1]));
                } else if i >= sf.len() {
                    assert(v[i] == sn[i - sf.len()] && v[i + 1] == sn[i + 1 - sf.len()]);
                    assert(by_label()(sn[i - sf.len()], sn[i + 1 - sf.len()]));
                } else {
                    assert(v[i] == sf[i] && v[i + 1] == sn[0]);
                }
            }
        },
        Err(_) => {},
    }
}

} // verus!
