//! The file tree of the side panel: directory listings turned into a tree of
//! folders and Markdown files, its expanded folders, and the flat list of
//! rows that the panel draws.

use std::cmp::Ordering;
use vstd::prelude::*;
use crate::natord::{natord_compare, natural_order};
use crate::text::{chars_of, has_suffix, str_equal};

verus! {

/// One entry of a directory listing as read from disk: its file name, its
/// path, whether it is a directory, (for a directory) its own listing, and
/// (for a file read for a search) its text, `None` when it was not read.
pub struct DirEntryInfo {
    pub name: String,
    pub path: String,
    pub is_dir: bool,
    pub children: Vec<DirEntryInfo>,
    pub content: Option<String>,
}

/// A node of the file tree: a folder or a Markdown file.
pub struct FileNode {
    pub path: String,
    pub name: String,
    pub is_dir: bool,
    pub children: Vec<FileNode>,
    pub expanded: bool,
}

/// A tree node as a value.
pub struct NodeView {
    pub path: Seq<char>,
    pub name: Seq<char>,
    pub is_dir: bool,
    pub children: Seq<NodeView>,
    pub expanded: bool,
}

/// The values of a sequence of nodes.
pub open spec fn nodes_view(ns: Seq<FileNode>) -> Seq<NodeView>
    decreases ns,
{
    if ns.len() == 0 {
        seq![]
    } else {
        nodes_view(ns.drop_last()).push(node_view(ns.last()))
    }
}

/// The value of a node.
pub open spec fn node_view(n: FileNode) -> NodeView
    decreases n,
{
    NodeView {
        path: n.path@,
        name: n.name@,
        is_dir: n.is_dir,
        children: nodes_view(n.children@),
        expanded: n.expanded,
    }
}

/// A listing entry as a value.
pub struct EntryView {
    pub name: Seq<char>,
    pub path: Seq<char>,
    pub is_dir: bool,
    pub children: Seq<EntryView>,
    pub content: Option<Seq<char>>,
}

/// The values of a sequence of listing entries.
pub open spec fn entries_view(es: Seq<DirEntryInfo>) -> Seq<EntryView>
    decreases es,
{
    if es.len() == 0 {
        seq![]
    } else {
        entries_view(es.drop_last()).push(entry_view(es.last()))
    }
}

/// The value of a listing entry.
pub open spec fn entry_view(e: DirEntryInfo) -> EntryView
    decreases e,
{
    EntryView {
        name: e.name@,
        path: e.path@,
        is_dir: e.is_dir,
        children: entries_view(e.children@),
        content: match e.content {
            Some(c) => Some(c@),
            None => None,
        },
    }
}

pub proof fn lemma_entries_view(es: Seq<DirEntryInfo>)
    ensures
        entries_view(es).len() == es.len(),
        forall|i: int| 0 <= i < es.len() ==> #[trigger] entries_view(es)[i] == entry_view(es[i]),
    decreases es.len(),
{
    if es.len() > 0 {
        lemma_entries_view(es.drop_last());
    }
}

pub proof fn lemma_nodes_view(ns: Seq<FileNode>)
    ensures
        nodes_view(ns).len() == ns.len(),
        forall|i: int| 0 <= i < ns.len() ==> #[trigger] nodes_view(ns)[i] == node_view(ns[i]),
    decreases ns.len(),
{
    if ns.len() > 0 {
        lemma_nodes_view(ns.drop_last());
    }
}

/// Listing entries that the tree shows: not hidden (a name starting with
/// `.`) and not the theme folder `markdown-theme`.
pub open spec fn is_listed(e: EntryView) -> bool {
    !(e.name.len() > 0 && e.name[0] == '.') && e.name != seq![
        'm', 'a', 'r', 'k', 'd', 'o', 'w', 'n', '-', 't', 'h', 'e', 'm', 'e'
    ]
}

/// A file name ending in `.md` or `.markdown`.
pub open spec fn is_markdown_name(n: Seq<char>) -> bool {
    seq!['.', 'm', 'd'].is_suffix_of(n) || seq!['.', 'm', 'a', 'r', 'k', 'd', 'o', 'w', 'n'].is_suffix_of(n)
}

/// The indices below `n` of the entries that the tree shows, ascending.
pub open spec fn listed_upto(es: Seq<EntryView>, n: int) -> Seq<int>
    decreases n,
{
    if n <= 0 {
        seq![]
    } else if is_listed(es[n - 1]) {
        listed_upto(es, n - 1).push(n - 1)
    } else {
        listed_upto(es, n - 1)
    }
}

/// Entry `x` comes after entry `y` in natural order of names.
pub open spec fn after(es: Seq<EntryView>, y: int, x: int) -> bool {
    natural_order(es[y].name, es[x].name) == Ordering::Greater
}

/// Index `x` inserted into the index sequence `s` after the last index whose
/// entry does not come after `x`'s.
pub open spec fn insert_index(es: Seq<EntryView>, s: Seq<int>, x: int) -> Seq<int>
    decreases s.len(),
{
    if s.len() == 0 {
        seq![x]
    } else if after(es, s.last(), x) {
        insert_index(es, s.drop_last(), x).push(s.last())
    } else {
        s.push(x)
    }
}

/// The indices `s` in stable natural order of their entries' names
/// (insertion sort).
pub open spec fn sort_indices(es: Seq<EntryView>, s: Seq<int>) -> Seq<int>
    decreases s.len(),
{
    if s.len() == 0 {
        seq![]
    } else {
        insert_index(es, sort_indices(es, s.drop_last()), s.last())
    }
}

/// The order in which a listing's entries become tree nodes: the shown
/// entries sorted by name, directories first, then the Markdown files;
/// other files are left out.
pub open spec fn child_order(es: Seq<EntryView>) -> Seq<int> {
    let s = sort_indices(es, listed_upto(es, es.len() as int));
    s.filter(is_dir_at(es)) + s.filter(is_markdown_at(es))
}

/// Index `i` holds a directory.
pub open spec fn is_dir_at(es: Seq<EntryView>) -> spec_fn(int) -> bool {
    |i: int| es[i].is_dir
}

/// Index `i` holds a Markdown file.
pub open spec fn is_markdown_at(es: Seq<EntryView>) -> spec_fn(int) -> bool {
    |i: int| !es[i].is_dir && is_markdown_name(es[i].name)
}

/// The node of a Markdown file.
pub open spec fn file_node(e: EntryView) -> NodeView {
    NodeView { path: e.path, name: e.name, is_dir: false, children: seq![], expanded: false }
}

/// The node of a directory, collapsed, with its listing turned into nodes.
pub open spec fn dir_node(e: EntryView) -> NodeView
    decreases e, 0nat,
{
    NodeView {
        path: e.path,
        name: e.name,
        is_dir: true,
        children: nodes_in_order(e.children, child_order(e.children), 0),
        expanded: false,
    }
}

/// The nodes of entries `order[k..]` of a listing.
pub open spec fn nodes_in_order(es: Seq<EntryView>, order: Seq<int>, k: int) -> Seq<NodeView>
    decreases es, order.len() - k,
{
    if k < 0 || k >= order.len() {
        seq![]
    } else {
        let j = order[k];
        if 0 <= j < es.len() {
            let node = if es[j].is_dir {
                dir_node(es[j])
            } else {
                file_node(es[j])
            };
            seq![node] + nodes_in_order(es, order, k + 1)
        } else {
            nodes_in_order(es, order, k + 1)
        }
    }
}

/// Machine indices as integers.
pub open spec fn ints(v: Seq<usize>) -> Seq<int> {
    v.map_values(|x: usize| x as int)
}

/// A machine index as an integer.
pub open spec fn idx(x: usize) -> int {
    x as int
}

/// The first `p` elements.
pub open spec fn ptake(s: Seq<int>, p: usize) -> Seq<int> {
    s.take(p as int)
}

/// All but the first `p` elements.
pub open spec fn pskip(s: Seq<int>, p: usize) -> Seq<int> {
    s.skip(p as int)
}

pub fn entry_is_listed(e: &DirEntryInfo) -> (r: bool)
    ensures
        r == is_listed(entry_view(*e)),
{
    let n = chars_of(e.name.as_str());
    let theme = ['m', 'a', 'r', 'k', 'd', 'o', 'w', 'n', '-', 't', 'h', 'e', 'm', 'e'];
    let mut same = n.len() == theme.len();
    if same {
        let mut k: usize = 0;
        while k < theme.len()
            invariant
                k <= 14,
                n@.len() == 14,
                theme@ =~= seq!['m', 'a', 'r', 'k', 'd', 'o', 'w', 'n', '-', 't', 'h', 'e', 'm', 'e'],
                same == forall|j: int| 0 <= j < k ==> n@[j] == theme@[j],
            decreases 14 - k,
        {
            if n[k] != theme[k] {
                same = false;
            }
            k += 1;
        }
        if same {
            assert(n@ =~= theme@);
        }
    }
    assert(theme@ =~= seq!['m', 'a', 'r', 'k', 'd', 'o', 'w', 'n', '-', 't', 'h', 'e', 'm', 'e']);
    !(n.len() > 0 && n[0] == '.') && !same
}

pub fn name_is_markdown(e: &DirEntryInfo) -> (r: bool)
    ensures
        r == is_markdown_name(entry_view(*e).name),
{
    let n = chars_of(e.name.as_str());
    let md = ['.', 'm', 'd'];
    let markdown = ['.', 'm', 'a', 'r', 'k', 'd', 'o', 'w', 'n'];
    assert(md@ =~= seq!['.', 'm', 'd']);
    assert(markdown@ =~= seq!['.', 'm', 'a', 'r', 'k', 'd', 'o', 'w', 'n']);
    has_suffix(&n, &md) || has_suffix(&n, &markdown)
}

fn listed_indices(es: &Vec<DirEntryInfo>) -> (r: Vec<usize>)
    ensures
        ints(r@) == listed_upto(entries_view(es@), es@.len() as int),
        forall|t: int| 0 <= t < r@.len() ==> r@[t] < es@.len(),
{
    let ghost ev = entries_view(es@);
    proof {
        lemma_entries_view(es@);
    }
    let mut r: Vec<usize> = Vec::new();
    let mut i: usize = 0;
    while i < es.len()
        invariant
            i <= es@.len(),
            ev == entries_view(es@),
            ev.len() == es@.len(),
            forall|j: int| 0 <= j < es@.len() ==> #[trigger] ev[j] == entry_view(es@[j]),
            ints(r@) == listed_upto(ev, i as int),
            forall|t: int| 0 <= t < r@.len() ==> r@[t] < i,
        decreases es@.len() - i,
    {
        if entry_is_listed(&es[i]) {
            r.push(i);
            assert(ints(r@) =~= listed_upto(ev, i as int).push(i as int));
        }
        i += 1;
    }
    r
}

fn insert_sorted(es: &Vec<DirEntryInfo>, s: &mut Vec<usize>, x: usize)
    requires
        x < es@.len(),
        forall|t: int| 0 <= t < old(s)@.len() ==> old(s)@[t] < es@.len(),
    ensures
        ints(final(s)@) == insert_index(entries_view(es@), ints(old(s)@), idx(x)),
        forall|t: int| 0 <= t < final(s)@.len() ==> final(s)@[t] < es@.len(),
{
    let ghost ev = entries_view(es@);
    let ghost is = ints(s@);
    proof {
        lemma_entries_view(es@);
        assert(ptake(is, s.len()) =~= is);
        assert(pskip(is, s.len()) =~= Seq::<int>::empty());
        assert(insert_index(ev, is, idx(x)) =~= insert_index(ev, ptake(is, s.len()), idx(x))
            + pskip(is, s.len()));
    }
    let mut p = s.len();
    loop
        invariant
            p <= s@.len(),
            ev == entries_view(es@),
            ev.len() == es@.len(),
            forall|j: int| 0 <= j < es@.len() ==> #[trigger] ev[j] == entry_view(es@[j]),
            is == ints(s@),
            x < es@.len(),
            forall|t: int| 0 <= t < s@.len() ==> s@[t] < es@.len(),
            insert_index(ev, is, idx(x)) == insert_index(ev, ptake(is, p), idx(x)) + pskip(is, p),
        ensures
            p <= s@.len(),
            is == ints(s@),
            p > 0 ==> !after(ev, is[p - 1], idx(x)),
            insert_index(ev, is, idx(x)) == insert_index(ev, ptake(is, p), idx(x)) + pskip(is, p),
        decreases p,
    {
        if p == 0 {
            break;
        }
        let y = s[p - 1];
        match natord_compare(es[y].name.as_str(), es[x].name.as_str()) {
            Ordering::Greater => {
                proof {
                    let tp = ptake(is, p);
                    assert(tp.last() == is[p - 1]);
                    assert(tp.drop_last() =~= is.take(p - 1));
                    assert(after(ev, tp.last(), idx(x)));
                    assert(insert_index(ev, tp, idx(x)) == insert_index(ev, is.take(p - 1), idx(x)).push(
                        is[p - 1],
                    ));
                    assert(insert_index(ev, is.take(p - 1), idx(x)).push(is[p - 1]) + pskip(is, p)
                        =~= insert_index(ev, is.take(p - 1), idx(x)) + is.skip(p - 1));
                }
                p -= 1;
            },
            _ => {
                assert(is[p - 1] == idx(y));
                break;
            },
        }
    }
    proof {
        let tp = ptake(is, p);
        if p > 0 {
            assert(tp.last() == is[p - 1]);
        }
        assert(insert_index(ev, tp, idx(x)) == tp.push(idx(x)));
    }
    s.insert(p, x);
    assert(ints(s@) =~= ptake(is, p).push(idx(x)) + pskip(is, p));
}

fn sorted_indices(es: &Vec<DirEntryInfo>, ix: &Vec<usize>) -> (r: Vec<usize>)
    requires
        forall|t: int| 0 <= t < ix@.len() ==> ix@[t] < es@.len(),
    ensures
        ints(r@) == sort_indices(entries_view(es@), ints(ix@)),
        forall|t: int| 0 <= t < r@.len() ==> r@[t] < es@.len(),
{
    let ghost ev = entries_view(es@);
    let mut r: Vec<usize> = Vec::new();
    let mut k: usize = 0;
    assert(ints(ix@).take(0) =~= Seq::<int>::empty());
    while k < ix.len()
        invariant
            k <= ix@.len(),
            ev == entries_view(es@),
            forall|t: int| 0 <= t < ix@.len() ==> ix@[t] < es@.len(),
            forall|t: int| 0 <= t < r@.len() ==> r@[t] < es@.len(),
            ints(r@) == sort_indices(ev, ptake(ints(ix@), k)),
        decreases ix@.len() - k,
    {
        insert_sorted(es, &mut r, ix[k]);
        proof {
            let t1 = ints(ix@).take(k + 1);
            assert(t1.drop_last() =~= ptake(ints(ix@), k));
            assert(t1.last() == idx(ix@[idx(k)]));
        }
        k += 1;
    }
    assert(ptake(ints(ix@), k) =~= ints(ix@));
    r
}

fn child_order_of(es: &Vec<DirEntryInfo>) -> (r: Vec<usize>)
    ensures
        ints(r@) == child_order(entries_view(es@)),
        forall|t: int| 0 <= t < r@.len() ==> r@[t] < es@.len(),
{
    let ghost ev = entries_view(es@);
    proof {
        lemma_entries_view(es@);
    }
    let listed = listed_indices(es);
    let sorted = sorted_indices(es, &listed);
    let ghost ss = ints(sorted@);
    let mut dirs: Vec<usize> = Vec::new();
    let mut files: Vec<usize> = Vec::new();
    let mut t: usize = 0;
    proof {
        reveal(Seq::filter);
        assert(ss.take(0) =~= Seq::<int>::empty());
    }
    while t < sorted.len()
        invariant
            t <= sorted@.len(),
            ev == entries_view(es@),
            ev.len() == es@.len(),
            forall|j: int| 0 <= j < es@.len() ==> #[trigger] ev[j] == entry_view(es@[j]),
            ss == ints(sorted@),
            forall|k: int| 0 <= k < sorted@.len() ==> sorted@[k] < es@.len(),
            ints(dirs@) == ss.take(t as int).filter(is_dir_at(ev)),
            ints(files@) == ss.take(t as int).filter(is_markdown_at(ev)),
            forall|k: int| 0 <= k < dirs@.len() ==> dirs@[k] < es@.len(),
            forall|k: int| 0 <= k < files@.len() ==> files@[k] < es@.len(),
        decreases sorted@.len() - t,
    {
        let j = sorted[t];
        proof {
            reveal(Seq::filter);
            let tk = ss.take(t + 1);
            assert(tk.drop_last() =~= ss.take(t as int));
            assert(tk.last() == j as int);
        }
        if es[j].is_dir {
            dirs.push(j);
            assert(ints(dirs@) =~= ss.take(t as int).filter(is_dir_at(ev)).push(j as int));
        } else if name_is_markdown(&es[j]) {
            files.push(j);
            assert(ints(files@) =~= ss.take(t as int).filter(is_markdown_at(ev)).push(j as int));
        }
        t += 1;
    }
    assert(ss.take(t as int) =~= ss);
    let mut r = dirs;
    let mut k: usize = 0;
    let ghost d = ints(r@);
    while k < files.len()
        invariant
            k <= files@.len(),
            ints(r@) == d + ints(files@).take(k as int),
            forall|q: int| 0 <= q < r@.len() ==> r@[q] < es@.len(),
            forall|q: int| 0 <= q < files@.len() ==> files@[q] < es@.len(),
        decreases files@.len() - k,
    {
        let ghost before = r@;
        r.push(files[k]);
        assert(r@ == before.push(files@[k as int]));
        assert(ints(r@) =~= ints(before).push(files@[k as int] as int));
        assert(ints(files@).take(k + 1) =~= ints(files@).take(k as int).push(files@[k as int] as int));
        assert(ints(r@) =~= d + ints(files@).take(k + 1));
        k += 1;
    }
    assert(ints(files@).take(k as int) =~= ints(files@));
    r
}

fn build_dir(e: &DirEntryInfo) -> (r: FileNode)
    ensures
        node_view(r) == dir_node(entry_view(*e)),
    decreases e, 0nat,
{
    let order = child_order_of(&e.children);
    let children = build_children(&e.children, &order);
    FileNode { path: e.path.clone(), name: e.name.clone(), is_dir: true, children, expanded: false }
}

fn build_children(es: &Vec<DirEntryInfo>, order: &Vec<usize>) -> (r: Vec<FileNode>)
    requires
        forall|t: int| 0 <= t < order@.len() ==> order@[t] < es@.len(),
    ensures
        nodes_view(r@) == nodes_in_order(entries_view(es@), ints(order@), 0),
    decreases es, 1nat,
{
    let ghost ev = entries_view(es@);
    let ghost o = ints(order@);
    proof {
        lemma_entries_view(es@);
    }
    let mut r: Vec<FileNode> = Vec::new();
    let mut k: usize = 0;
    while k < order.len()
        invariant
            k <= order@.len(),
            ev == entries_view(es@),
            ev.len() == es@.len(),
            forall|j: int| 0 <= j < es@.len() ==> #[trigger] ev[j] == entry_view(es@[j]),
            o == ints(order@),
            forall|t: int| 0 <= t < order@.len() ==> order@[t] < es@.len(),
            nodes_view(r@) + nodes_in_order(ev, o, k as int) == nodes_in_order(ev, o, 0),
        decreases order@.len() - k,
    {
        let j = order[k];
        assert(o[k as int] == j as int);
        let e = &es[j];
        let node = if e.is_dir {
            assert(decreases_to!(es => es@[j as int]));
            build_dir(e)
        } else {
            FileNode {
                path: e.path.clone(),
                name: e.name.clone(),
                is_dir: false,
                children: Vec::new(),
                expanded: false,
            }
        };
        proof {
            assert(ev[j as int] == entry_view(*e));
            if !e.is_dir {
                assert(nodes_view(node.children@) =~= Seq::<NodeView>::empty());
            }
        }
        let ghost before = r@;
        r.push(node);
        assert(r@.drop_last() =~= before);
        assert(nodes_view(r@) == nodes_view(before).push(node_view(node)));
        assert(nodes_view(r@) + nodes_in_order(ev, o, k + 1) =~= nodes_view(before) + nodes_in_order(
            ev,
            o,
            k as int,
        ));
        k += 1;
    }
    assert(nodes_in_order(ev, o, k as int) == Seq::<NodeView>::empty());
    assert(nodes_view(r@) + Seq::<NodeView>::empty() =~= nodes_view(r@));
    r
}

impl FileNode {
    /// The tree of a directory as listed from disk: the directory's node,
    /// collapsed, whose children are the shown entries of its listing,
    /// sorted by name in natural order, directories first (each with its
    /// own listing turned into nodes), then the Markdown files.
    pub fn from_dir(dir: &DirEntryInfo) -> (r: Self)
        ensures
            node_view(r) == dir_node(entry_view(*dir)),
    {
        build_dir(dir)
    }
}

/// One row of the drawn tree: indentation depth, path, name, whether it is
/// a folder, whether it is expanded, whether it has children.
pub struct FlatItem {
    pub depth: usize,
    pub path: String,
    pub name: String,
    pub is_dir: bool,
    pub expanded: bool,
    pub has_children: bool,
}

/// What the file tree asks of the application; `Idle` when nothing.
pub enum FileTreeAction {
    Idle,
    NewFile(String),
    NewFolder(String),
    Delete(String),
    Rename(String),
    Refresh,
    Cut(String),
    Copy(String),
    Paste(String),
    ImportMarkdown(String),
    SearchContent,
    OpenAiChat,
}

/// What one frame of the file tree produced: the file clicked, if any,
/// and the action asked for.
pub struct FileTreeResult {
    pub clicked_file: Option<String>,
    pub action: FileTreeAction,
}

/// The entries of the tree's context menus.
#[derive(Clone, Copy, PartialEq, Eq, Structural)]
pub enum MenuEntry {
    OpenAiChat,
    NewFile,
    ImportMarkdown,
    NewFolder,
    Cut,
    Copy,
    Paste,
    Rename,
    Delete,
    SearchContent,
    Refresh,
}

/// The action of a context-menu entry on a row. On a folder, the entries
/// that create or paste act in that folder; on a file, in its parent
/// folder, and not at all when it has none. Cut, copy, rename and delete
/// act on the row's own path.
pub open spec fn row_menu_action(entry: MenuEntry, is_dir: bool, path: Seq<char>, parent: Option<Seq<char>>) -> Option<(int, Seq<char>)> {
    let target = if is_dir {
        Some(path)
    } else {
        parent
    };
    match entry {
        MenuEntry::OpenAiChat => Some((11, seq![])),
        MenuEntry::SearchContent => Some((10, seq![])),
        MenuEntry::Refresh => None,
        MenuEntry::Cut => Some((6, path)),
        MenuEntry::Copy => Some((7, path)),
        MenuEntry::Rename => Some((4, path)),
        MenuEntry::Delete => Some((3, path)),
        MenuEntry::NewFile => match target { Some(t) => Some((1, t)), None => None },
        MenuEntry::NewFolder => match target { Some(t) => Some((2, t)), None => None },
        MenuEntry::ImportMarkdown => match target { Some(t) => Some((9, t)), None => None },
        MenuEntry::Paste => match target { Some(t) => Some((8, t)), None => None },
    }
}

/// An action as its number (in the order of `FileTreeAction`'s variants)
/// and the path it carries (empty when it carries none).
pub open spec fn action_code(a: FileTreeAction) -> (int, Seq<char>) {
    match a {
        FileTreeAction::Idle => (0, seq![]),
        FileTreeAction::NewFile(p) => (1, p@),
        FileTreeAction::NewFolder(p) => (2, p@),
        FileTreeAction::Delete(p) => (3, p@),
        FileTreeAction::Rename(p) => (4, p@),
        FileTreeAction::Refresh => (5, seq![]),
        FileTreeAction::Cut(p) => (6, p@),
        FileTreeAction::Copy(p) => (7, p@),
        FileTreeAction::Paste(p) => (8, p@),
        FileTreeAction::ImportMarkdown(p) => (9, p@),
        FileTreeAction::SearchContent => (10, seq![]),
        FileTreeAction::OpenAiChat => (11, seq![]),
    }
}

/// The action of a context-menu entry on a row with the given path and
/// parent folder; `Idle` for an entry that offers nothing there.
pub fn row_action(entry: MenuEntry, is_dir: bool, path: &str, parent: Option<&str>) -> (r: FileTreeAction)
    ensures
        match row_menu_action(entry, is_dir, path@, match parent { Some(p) => Some(p@), None => None }) {
            Some(c) => action_code(r) == c,
            None => r is Idle,
        },
{
    let target: Option<String> = if is_dir {
        Some(path.to_string())
    } else {
        match parent {
            Some(p) => Some(p.to_string()),
            None => None,
        }
    };
    match entry {
        MenuEntry::OpenAiChat => FileTreeAction::OpenAiChat,
        MenuEntry::SearchContent => FileTreeAction::SearchContent,
        MenuEntry::Refresh => FileTreeAction::Idle,
        MenuEntry::Cut => FileTreeAction::Cut(path.to_string()),
        MenuEntry::Copy => FileTreeAction::Copy(path.to_string()),
        MenuEntry::Rename => FileTreeAction::Rename(path.to_string()),
        MenuEntry::Delete => FileTreeAction::Delete(path.to_string()),
        MenuEntry::NewFile => match target { Some(t) => FileTreeAction::NewFile(t), None => FileTreeAction::Idle },
        MenuEntry::NewFolder => match target { Some(t) => FileTreeAction::NewFolder(t), None => FileTreeAction::Idle },
        MenuEntry::ImportMarkdown => match target { Some(t) => FileTreeAction::ImportMarkdown(t), None => FileTreeAction::Idle },
        MenuEntry::Paste => match target { Some(t) => FileTreeAction::Paste(t), None => FileTreeAction::Idle },
    }
}

/// The action of a context-menu entry on the empty area below the rows:
/// creating, importing and pasting act in the data directory (nothing
/// without one), refresh and content search as such.
pub fn empty_area_action(entry: MenuEntry, data_dir: Option<&str>) -> (r: FileTreeAction)
    ensures
        match entry {
            MenuEntry::NewFile | MenuEntry::NewFolder | MenuEntry::ImportMarkdown | MenuEntry::Paste => match data_dir {
                Some(d) => action_code(r) == (match entry {
                    MenuEntry::NewFile => 1int,
                    MenuEntry::NewFolder => 2int,
                    MenuEntry::ImportMarkdown => 9int,
                    _ => 8int,
                }, d@),
                None => r is Idle,
            },
            MenuEntry::SearchContent => r is SearchContent,
            MenuEntry::Refresh => r is Refresh,
            _ => r is Idle,
        },
{
    match entry {
        MenuEntry::NewFile | MenuEntry::NewFolder | MenuEntry::ImportMarkdown | MenuEntry::Paste => {
            match data_dir {
                Some(d) => {
                    let dir = d.to_string();
                    match entry {
                        MenuEntry::NewFile => FileTreeAction::NewFile(dir),
                        MenuEntry::NewFolder => FileTreeAction::NewFolder(dir),
                        MenuEntry::ImportMarkdown => FileTreeAction::ImportMarkdown(dir),
                        _ => FileTreeAction::Paste(dir),
                    }
                },
                None => FileTreeAction::Idle,
            }
        },
        MenuEntry::SearchContent => FileTreeAction::SearchContent,
        MenuEntry::Refresh => FileTreeAction::Refresh,
        _ => FileTreeAction::Idle,
    }
}

/// A row as a value.
pub struct FlatView {
    pub depth: int,
    pub path: Seq<char>,
    pub name: Seq<char>,
    pub is_dir: bool,
    pub expanded: bool,
    pub has_children: bool,
}

impl View for FlatItem {
    type V = FlatView;

    open spec fn view(&self) -> FlatView {
        FlatView {
            depth: self.depth as int,
            path: self.path@,
            name: self.name@,
            is_dir: self.is_dir,
            expanded: self.expanded,
            has_children: self.has_children,
        }
    }
}

/// The rows held by a vector, as values.
pub open spec fn flat_views(v: Seq<FlatItem>) -> Seq<FlatView> {
    v.map_values(|x: FlatItem| x@)
}

/// The row of a node at depth `d`.
pub open spec fn row_of(n: NodeView, d: int) -> FlatView {
    FlatView {
        depth: d,
        path: n.path,
        name: n.name,
        is_dir: n.is_dir,
        expanded: n.expanded,
        has_children: n.children.len() > 0,
    }
}

/// The rows of a node at depth `d`: its own row, then, if it is expanded,
/// the rows of its children one level deeper.
pub open spec fn flat_node(n: NodeView, d: int) -> Seq<FlatView>
    decreases n, 0nat,
{
    seq![row_of(n, d)] + if n.expanded {
        flat_nodes(n.children, d + 1)
    } else {
        seq![]
    }
}

/// The rows of a sequence of sibling nodes at depth `d`, in order.
pub open spec fn flat_nodes(ns: Seq<NodeView>, d: int) -> Seq<FlatView>
    decreases ns, 1nat,
{
    if ns.len() == 0 {
        seq![]
    } else {
        flat_nodes(ns.drop_last(), d) + flat_node(ns.last(), d)
    }
}

/// The number of levels of a node (1 for a leaf).
pub open spec fn node_height(n: NodeView) -> nat
    decreases n, 0nat,
{
    1 + nodes_height(n.children)
}

/// The greatest height among sibling nodes (0 for none).
pub open spec fn nodes_height(ns: Seq<NodeView>) -> nat
    decreases ns, 1nat,
{
    if ns.len() == 0 {
        0
    } else {
        proof {
            assert(decreases_to!(ns => ns[0]));
        }
        let a = node_height(ns[0]);
        let b = nodes_height(ns.drop_first());
        if a >= b {
            a
        } else {
            b
        }
    }
}

pub proof fn lemma_nodes_height(ns: Seq<NodeView>)
    ensures
        forall|i: int| 0 <= i < ns.len() ==> node_height(#[trigger] ns[i]) <= nodes_height(ns),
    decreases ns.len(),
{
    if ns.len() > 0 {
        lemma_nodes_height(ns.drop_first());
        assert forall|i: int| 0 <= i < ns.len() implies node_height(#[trigger] ns[i]) <= nodes_height(
            ns,
        ) by {
            if i > 0 {
                assert(ns[i] == ns.drop_first()[i - 1]);
            }
        }
    }
}

/// Appends the rows of `node` at depth `depth` to `flat`.
fn flatten_node_into(node: &FileNode, depth: usize, flat: &mut Vec<FlatItem>)
    requires
        depth + node_height(node_view(*node)) <= usize::MAX,
    ensures
        flat_views(final(flat)@) == flat_views(old(flat)@) + flat_node(node_view(*node), depth as int),
    decreases node,
{
    let ghost nv = node_view(*node);
    let ghost start = flat_views(flat@);
    flat.push(
        FlatItem {
            depth,
            path: node.path.clone(),
            name: node.name.clone(),
            is_dir: node.is_dir,
            expanded: node.expanded,
            has_children: node.children.len() > 0,
        },
    );
    proof {
        lemma_nodes_view(node.children@);
        assert(flat_views(flat@) =~= start + seq![row_of(nv, depth as int)]);
    }
    if node.expanded {
        let ghost cv = nodes_view(node.children@);
        proof {
            lemma_nodes_height(cv);
        }
        let mut k: usize = 0;
        assert(cv.take(0) =~= Seq::<NodeView>::empty());
        while k < node.children.len()
            invariant
                k <= node.children@.len(),
                cv == nodes_view(node.children@),
                cv.len() == node.children@.len(),
                forall|i: int| 0 <= i < node.children@.len() ==> #[trigger] cv[i] == node_view(node.children@[i]),
                forall|i: int| 0 <= i < cv.len() ==> node_height(#[trigger] cv[i]) <= nodes_height(cv),
                depth + 1 + nodes_height(cv) <= usize::MAX,
                flat_views(flat@) == start + seq![row_of(nv, depth as int)] + flat_nodes(cv.take(k as int), depth + 1),
            decreases node.children@.len() - k,
        {
            let child = &node.children[k];
            assert(cv[k as int] == node_view(*child));
            assert(decreases_to!(node => node.children@[k as int]));
            flatten_node_into(child, depth + 1, flat);
            proof {
                let t = cv.take(k + 1);
                assert(t.drop_last() =~= cv.take(k as int));
                assert(t.last() == cv[k as int]);
            }
            k += 1;
        }
        assert(cv.take(k as int) =~= cv);
    } else {
        assert(flat_node(nv, depth as int) =~= seq![row_of(nv, depth as int)]);
    }
}

/// The node with its expanded flag set to `value`.
pub open spec fn with_expanded(n: NodeView, value: bool) -> NodeView {
    NodeView { expanded: value, ..n }
}

/// The nodes with the first node whose path is `path` set to `value`: the
/// siblings are walked in order; a sibling with another path has the same
/// done to its subtree, and the walk of a sibling list stops at a match.
pub open spec fn set_path_expanded(ns: Seq<NodeView>, path: Seq<char>, value: bool) -> Seq<NodeView>
    decreases ns,
{
    if ns.len() == 0 {
        ns
    } else if ns[0].path == path {
        seq![with_expanded(ns[0], value)] + ns.drop_first()
    } else {
        let n = ns[0];
        proof {
            assert(decreases_to!(ns => ns[0]));
            assert(decreases_to!(ns[0] => ns[0].children));
        }
        seq![NodeView { children: set_path_expanded(n.children, path, value), ..n }]
            + set_path_expanded(ns.drop_first(), path, value)
    }
}

/// The nodes and all their descendants with their expanded flags set to
/// `value`.
pub open spec fn set_all_expanded(ns: Seq<NodeView>, value: bool) -> Seq<NodeView>
    decreases ns,
{
    if ns.len() == 0 {
        ns
    } else {
        let n = ns[0];
        proof {
            assert(decreases_to!(ns => ns[0]));
            assert(decreases_to!(ns[0] => ns[0].children));
        }
        seq![NodeView { expanded: value, children: set_all_expanded(n.children, value), ..n }]
            + set_all_expanded(ns.drop_first(), value)
    }
}

/// Folders come before files among sibling nodes.
pub open spec fn folders_first(ns: Seq<NodeView>) -> bool {
    forall|i: int, j: int| 0 <= i < j < ns.len() && (#[trigger] ns[j]).is_dir ==> (#[trigger] ns[i]).is_dir
}

/// Every file among the nodes has a Markdown name.
pub open spec fn files_are_markdown(ns: Seq<NodeView>) -> bool {
    forall|i: int| 0 <= i < ns.len() && !(#[trigger] ns[i]).is_dir ==> is_markdown_name(ns[i].name)
}

proof fn lemma_nodes_in_order_split(es: Seq<EntryView>, a: Seq<int>, b: Seq<int>, k: int)
    requires
        0 <= k <= a.len() + b.len(),
        forall|i: int| 0 <= i < a.len() ==> #[trigger] es[a[i]].is_dir,
        forall|i: int| 0 <= i < b.len() ==> #[trigger] is_markdown_at(es)(b[i]),
    ensures
        folders_first(nodes_in_order(es, a + b, k)),
        files_are_markdown(nodes_in_order(es, a + b, k)),
        k >= a.len() ==> forall|i: int| 0 <= i < nodes_in_order(es, a + b, k).len()
            ==> !(#[trigger] nodes_in_order(es, a + b, k)[i]).is_dir,
    decreases a.len() + b.len() - k,
{
    let order = a + b;
    if k < order.len() {
        lemma_nodes_in_order_split(es, a, b, k + 1);
        let rest = nodes_in_order(es, order, k + 1);
        let j = order[k];
        if k < a.len() {
            assert(order[k] == a[k]);
            assert(es[a[k]].is_dir);
        } else {
            assert(order[k] == b[k - a.len()]);
            assert(is_markdown_at(es)(b[k - a.len()]));
        }
        if 0 <= j < es.len() {
            let node = if es[j].is_dir {
                dir_node(es[j])
            } else {
                file_node(es[j])
            };
            let all = nodes_in_order(es, order, k);
            assert(all == seq![node] + rest);
            assert forall|x: int, y: int| 0 <= x < y < all.len() && (#[trigger] all[y]).is_dir implies (#[trigger] all[x]).is_dir by {
                assert(all[y] == rest[y - 1]);
                if x > 0 {
                    assert(all[x] == rest[x - 1]);
                } else {
                    if k >= a.len() {
                        assert(!rest[y - 1].is_dir);
                    }
                }
            }
            assert forall|x: int| 0 <= x < all.len() && !(#[trigger] all[x]).is_dir implies is_markdown_name(all[x].name) by {
                if x > 0 {
                    assert(all[x] == rest[x - 1]);
                }
            }
            if k >= a.len() {
                assert forall|x: int| 0 <= x < all.len() implies !(#[trigger] all[x]).is_dir by {
                    if x > 0 {
                        assert(all[x] == rest[x - 1]);
                    }
                }
            }
        }
    }
}

/// A folder's nodes list its subfolders first, then its Markdown files;
/// no other file appears.
pub proof fn lemma_folders_before_files(e: EntryView)
    ensures
        folders_first(dir_node(e).children),
        files_are_markdown(dir_node(e).children),
{
    let es = e.children;
    let s = sort_indices(es, listed_upto(es, es.len() as int));
    let a = s.filter(is_dir_at(es));
    let b = s.filter(is_markdown_at(es));
    assert forall|i: int| 0 <= i < a.len() implies #[trigger] es[a[i]].is_dir by {
        s.lemma_filter_pred(is_dir_at(es), i);
    }
    assert forall|i: int| 0 <= i < b.len() implies #[trigger] is_markdown_at(es)(b[i]) by {
        s.lemma_filter_pred(is_markdown_at(es), i);
    }
    lemma_nodes_in_order_split(es, a, b, 0);
}

/// The nodes with every node's expanded flag set to `value`, node by node.
pub proof fn lemma_set_all_pointwise(ns: Seq<NodeView>, value: bool)
    ensures
        set_all_expanded(ns, value).len() == ns.len(),
        forall|i: int| 0 <= i < ns.len() ==> #[trigger] set_all_expanded(ns, value)[i] == (NodeView {
            expanded: value,
            children: set_all_expanded(ns[i].children, value),
            ..ns[i]
        }),
    decreases ns.len(),
{
    if ns.len() > 0 {
        lemma_set_all_pointwise(ns.drop_first(), value);
        assert forall|i: int| 0 <= i < ns.len() implies #[trigger] set_all_expanded(ns, value)[i] == (NodeView {
            expanded: value,
            children: set_all_expanded(ns[i].children, value),
            ..ns[i]
        }) by {
            if i > 0 {
                assert(set_all_expanded(ns, value)[i] == set_all_expanded(ns.drop_first(), value)[i - 1]);
                assert(ns.drop_first()[i - 1] == ns[i]);
            }
        }
    }
}

/// Nodes that are all collapsed are drawn one row each, at depth `d`.
pub proof fn lemma_flat_collapsed(ns: Seq<NodeView>, d: int)
    requires
        forall|i: int| 0 <= i < ns.len() ==> !(#[trigger] ns[i]).expanded,
    ensures
        flat_nodes(ns, d) == ns.map_values(|n: NodeView| row_of(n, d)),
    decreases ns.len(),
{
    if ns.len() > 0 {
        lemma_flat_collapsed(ns.drop_last(), d);
        assert(!ns.last().expanded);
        assert(flat_node(ns.last(), d) =~= seq![row_of(ns.last(), d)]);
        assert(ns.map_values(|n: NodeView| row_of(n, d)) =~= ns.drop_last().map_values(
            |n: NodeView| row_of(n, d),
        ).push(row_of(ns.last(), d)));
    } else {
        assert(ns.map_values(|n: NodeView| row_of(n, d)) =~= Seq::<FlatView>::empty());
    }
}

/// After collapsing every folder, the rows are the top-level entries, one
/// each, in order, at depth 0 and collapsed.
pub proof fn lemma_collapse_all_rows(ns: Seq<NodeView>)
    ensures
        flat_nodes(set_all_expanded(ns, false), 0).len() == ns.len(),
        forall|i: int| 0 <= i < ns.len() ==> {
            let row = #[trigger] flat_nodes(set_all_expanded(ns, false), 0)[i];
            &&& row.path == ns[i].path
            &&& row.name == ns[i].name
            &&& row.is_dir == ns[i].is_dir
            &&& row.depth == 0
            &&& !row.expanded
        },
{
    let c = set_all_expanded(ns, false);
    lemma_set_all_pointwise(ns, false);
    assert forall|i: int| 0 <= i < c.len() implies !(#[trigger] c[i]).expanded by {}
    lemma_flat_collapsed(c, 0);
}

/// Setting the expanded flag of a path twice leaves what the second
/// setting alone leaves: the last setting wins.
pub proof fn lemma_set_path_twice(ns: Seq<NodeView>, path: Seq<char>, v: bool, w: bool)
    ensures
        set_path_expanded(set_path_expanded(ns, path, v), path, w) == set_path_expanded(ns, path, w),
    decreases ns,
{
    if ns.len() > 0 {
        let n = ns[0];
        let once = set_path_expanded(ns, path, v);
        if n.path == path {
            assert(once[0] == with_expanded(n, v));
            assert(once.drop_first() =~= ns.drop_first());
        } else {
            assert(decreases_to!(ns => ns[0]));
            assert(decreases_to!(ns[0] => ns[0].children));
            lemma_set_path_twice(n.children, path, v, w);
            lemma_set_path_twice(ns.drop_first(), path, v, w);
            assert(once.drop_first() =~= set_path_expanded(ns.drop_first(), path, v));
            assert(once[0].path == n.path);
        }
    }
}

/// Every node that `set_path_expanded` would set for `path` has the
/// expanded flag `e` (so in a tree where no two nodes share a path, the
/// node with that path, if any, has the flag `e`).
pub open spec fn path_flags_are(ns: Seq<NodeView>, path: Seq<char>, e: bool) -> bool
    decreases ns,
{
    if ns.len() == 0 {
        true
    } else if ns[0].path == path {
        ns[0].expanded == e
    } else {
        proof {
            assert(decreases_to!(ns => ns[0]));
            assert(decreases_to!(ns[0] => ns[0].children));
        }
        path_flags_are(ns[0].children, path, e) && path_flags_are(ns.drop_first(), path, e)
    }
}

/// Setting the expanded flag of a path to the flag it has changes nothing;
/// so flipping it and flipping it back leaves the nodes as they were.
pub proof fn lemma_set_path_restores(ns: Seq<NodeView>, path: Seq<char>, e: bool)
    requires
        path_flags_are(ns, path, e),
    ensures
        set_path_expanded(ns, path, e) == ns,
        set_path_expanded(set_path_expanded(ns, path, !e), path, e) == ns,
    decreases ns,
{
    lemma_set_path_twice(ns, path, !e, e);
    if ns.len() > 0 {
        let n = ns[0];
        if n.path == path {
            assert(with_expanded(n, e) == n);
            assert(seq![n] + ns.drop_first() =~= ns);
        } else {
            assert(decreases_to!(ns => ns[0]));
            assert(decreases_to!(ns[0] => ns[0].children));
            lemma_set_path_restores(n.children, path, e);
            lemma_set_path_restores(ns.drop_first(), path, e);
            assert((NodeView { children: n.children, ..n }) == n);
            assert(seq![n] + ns.drop_first() =~= ns);
        }
    }
}

/// Expanding or collapsing every folder twice leaves what the second
/// alone leaves.
pub proof fn lemma_set_all_twice(ns: Seq<NodeView>, v: bool, w: bool)
    ensures
        set_all_expanded(set_all_expanded(ns, v), w) == set_all_expanded(ns, w),
    decreases ns,
{
    if ns.len() > 0 {
        let n = ns[0];
        let once = set_all_expanded(ns, v);
        assert(decreases_to!(ns => ns[0]));
        assert(decreases_to!(ns[0] => ns[0].children));
        lemma_set_all_twice(n.children, v, w);
        lemma_set_all_twice(ns.drop_first(), v, w);
        assert(once.drop_first() =~= set_all_expanded(ns.drop_first(), v));
    }
}

/// The paths of all nodes, collapsed folders' children included: each
/// node's path, then those of its children, then those of its later
/// siblings.
pub open spec fn tree_paths(ns: Seq<NodeView>) -> Seq<Seq<char>>
    decreases ns,
{
    if ns.len() == 0 {
        seq![]
    } else {
        proof {
            assert(decreases_to!(ns => ns[0]));
            assert(decreases_to!(ns[0] => ns[0].children));
        }
        seq![ns[0].path] + tree_paths(ns[0].children) + tree_paths(ns.drop_first())
    }
}

/// No two nodes of the tree share a path, as in a tree read from disk.
pub open spec fn paths_unique(ns: Seq<NodeView>) -> bool {
    tree_paths(ns).no_duplicates()
}

proof fn lemma_tree_paths_parts(ns: Seq<NodeView>)
    requires
        ns.len() > 0,
    ensures
        ({
            let t = tree_paths(ns);
            let c = tree_paths(ns[0].children);
            let r = tree_paths(ns.drop_first());
            &&& t.contains(ns[0].path)
            &&& forall|q: Seq<char>| c.contains(q) ==> t.contains(q)
            &&& forall|q: Seq<char>| r.contains(q) ==> t.contains(q)
            &&& t.no_duplicates() ==> {
                &&& c.no_duplicates()
                &&& r.no_duplicates()
                &&& !c.contains(ns[0].path)
                &&& !r.contains(ns[0].path)
                &&& forall|q: Seq<char>| c.contains(q) ==> !r.contains(q)
            }
        }),
{
    let t = tree_paths(ns);
    let c = tree_paths(ns[0].children);
    let r = tree_paths(ns.drop_first());
    assert(t == seq![ns[0].path] + c + r);
    let cl = c.len() as int;
    assert(t[0] == ns[0].path);
    assert forall|k: int| 0 <= k < c.len() implies t[1 + k] == c[k] by {}
    assert forall|k: int| 0 <= k < r.len() implies t[1 + cl + k] == r[k] by {}
    assert forall|q: Seq<char>| c.contains(q) implies t.contains(q) by {
        let k = choose|k: int| 0 <= k < c.len() && c[k] == q;
        assert(t[1 + k] == q);
    }
    assert forall|q: Seq<char>| r.contains(q) implies t.contains(q) by {
        let k = choose|k: int| 0 <= k < r.len() && r[k] == q;
        assert(t[1 + cl + k] == q);
    }
    if t.no_duplicates() {
        assert forall|a: int, b: int| 0 <= a < c.len() && 0 <= b < c.len() && a != b implies c[a]
            != c[b] by {
            assert(t[1 + a] == c[a]);
            assert(t[1 + b] == c[b]);
        }
        assert forall|a: int, b: int| 0 <= a < r.len() && 0 <= b < r.len() && a != b implies r[a]
            != r[b] by {
            assert(t[1 + cl + a] == r[a]);
            assert(t[1 + cl + b] == r[b]);
        }
        if c.contains(ns[0].path) {
            let k = choose|k: int| 0 <= k < c.len() && c[k] == ns[0].path;
            assert(t[1 + k] == t[0]);
        }
        if r.contains(ns[0].path) {
            let k = choose|k: int| 0 <= k < r.len() && r[k] == ns[0].path;
            assert(t[1 + cl + k] == t[0]);
        }
        assert forall|q: Seq<char>| c.contains(q) implies !r.contains(q) by {
            let a = choose|a: int| 0 <= a < c.len() && c[a] == q;
            if r.contains(q) {
                let b = choose|b: int| 0 <= b < r.len() && r[b] == q;
                assert(t[1 + a] == t[1 + cl + b]);
            }
        }
    }
}

/// The rows of sibling nodes are the rows of the first, then those of the
/// others.
proof fn lemma_flat_front(ns: Seq<NodeView>, d: int)
    requires
        ns.len() > 0,
    ensures
        flat_nodes(ns, d) == flat_node(ns[0], d) + flat_nodes(ns.drop_first(), d),
    decreases ns.len(),
{
    if ns.len() == 1 {
        assert(flat_nodes(ns.drop_last(), d) == Seq::<FlatView>::empty());
        assert(flat_nodes(ns.drop_first(), d) == Seq::<FlatView>::empty());
        assert(ns.last() == ns[0]);
        assert(flat_nodes(ns, d) == flat_nodes(ns.drop_last(), d) + flat_node(ns.last(), d));
        assert(flat_nodes(ns, d) =~= flat_node(ns[0], d) + flat_nodes(ns.drop_first(), d));
    } else {
        lemma_flat_front(ns.drop_last(), d);
        let mid = ns.drop_first().drop_last();
        assert(ns.drop_last().drop_first() =~= mid);
        assert(ns.drop_last()[0] == ns[0]);
        assert(ns.drop_first().last() == ns.last());
        assert(flat_nodes(ns, d) == flat_nodes(ns.drop_last(), d) + flat_node(ns.last(), d));
        assert(flat_nodes(ns.drop_last(), d) == flat_node(ns[0], d) + flat_nodes(mid, d));
        assert(flat_nodes(ns.drop_first(), d) == flat_nodes(mid, d) + flat_node(ns.last(), d));
        assert(flat_nodes(ns, d) =~= flat_node(ns[0], d) + flat_nodes(ns.drop_first(), d));
    }
}

/// A path that no node has: setting it changes nothing, and no node has it
/// with another flag.
proof fn lemma_path_absent(ns: Seq<NodeView>, path: Seq<char>, v: bool)
    requires
        !tree_paths(ns).contains(path),
    ensures
        set_path_expanded(ns, path, v) == ns,
        path_flags_are(ns, path, v),
    decreases ns,
{
    if ns.len() > 0 {
        let n = ns[0];
        lemma_tree_paths_parts(ns);
        assert(decreases_to!(ns => ns[0]));
        assert(decreases_to!(ns[0] => ns[0].children));
        lemma_path_absent(n.children, path, v);
        lemma_path_absent(ns.drop_first(), path, v);
        assert((NodeView { children: n.children, ..n }) == n);
        assert(seq![n] + ns.drop_first() =~= ns);
    }
}

/// Every drawn row is the row of a node of the tree.
proof fn lemma_row_in_tree(ns: Seq<NodeView>, d: int, i: int)
    requires
        0 <= i < flat_nodes(ns, d).len(),
    ensures
        tree_paths(ns).contains(flat_nodes(ns, d)[i].path),
    decreases ns,
{
    let n = ns[0];
    lemma_flat_front(ns, d);
    lemma_tree_paths_parts(ns);
    let fa = flat_node(n, d);
    if i == 0 {
    } else if i < fa.len() {
        assert(n.expanded);
        assert(decreases_to!(ns => ns[0]));
        assert(decreases_to!(ns[0] => ns[0].children));
        assert(fa[i] == flat_nodes(n.children, d + 1)[i - 1]);
        lemma_row_in_tree(n.children, d + 1, i - 1);
    } else {
        assert(flat_nodes(ns, d)[i] == flat_nodes(ns.drop_first(), d)[i - fa.len()]);
        lemma_row_in_tree(ns.drop_first(), d, i - fa.len());
    }
}

/// In a tree where no two nodes share a path, the node drawn on row `i`
/// is the one node with that row's path: setting its flag to `v` leaves it
/// on row `i` with the flag `v`.
proof fn lemma_row_set(ns: Seq<NodeView>, d: int, i: int, v: bool)
    requires
        paths_unique(ns),
        0 <= i < flat_nodes(ns, d).len(),
    ensures
        ({
            let row = flat_nodes(ns, d)[i];
            let after = flat_nodes(set_path_expanded(ns, row.path, v), d);
            &&& path_flags_are(ns, row.path, row.expanded)
            &&& i < after.len()
            &&& after[i].path == row.path
            &&& after[i].expanded == v
            &&& forall|j: int| 0 <= j < i ==> #[trigger] after[j] == flat_nodes(ns, d)[j]
        }),
    decreases ns,
{
    let n = ns[0];
    let rest = ns.drop_first();
    lemma_flat_front(ns, d);
    lemma_tree_paths_parts(ns);
    let fa = flat_node(n, d);
    let row = flat_nodes(ns, d)[i];
    let p = row.path;
    let e = row.expanded;
    let set = set_path_expanded(ns, p, v);
    assert(set.len() > 0);
    lemma_flat_front(set, d);
    if i == 0 {
        assert(row == row_of(n, d));
        assert(set[0] == with_expanded(n, v));
    } else if i < fa.len() {
        assert(n.expanded);
        assert(decreases_to!(ns => ns[0]));
        assert(decreases_to!(ns[0] => ns[0].children));
        assert(fa[i] == flat_nodes(n.children, d + 1)[i - 1]);
        lemma_row_set(n.children, d + 1, i - 1, v);
        lemma_row_in_tree(n.children, d + 1, i - 1);
        assert(n.path != p);
        lemma_path_absent(rest, p, e);
        lemma_path_absent(rest, p, v);
        let n2 = NodeView { children: set_path_expanded(n.children, p, v), ..n };
        assert(set[0] == n2);
        assert(set.drop_first() =~= rest);
        assert(flat_node(n2, d) == seq![row_of(n2, d)] + flat_nodes(n2.children, d + 1));
        assert(flat_nodes(set, d)[i] == flat_nodes(n2.children, d + 1)[i - 1]);
        lemma_set_path_len(n.children, p, v);
        assert(row_of(n2, d) == row_of(n, d));
        assert forall|j: int| 0 <= j < i implies #[trigger] flat_nodes(set, d)[j] == flat_nodes(ns, d)[j] by {
            if j > 0 {
                assert(flat_nodes(set, d)[j] == flat_nodes(n2.children, d + 1)[j - 1]);
                assert(fa[j] == flat_nodes(n.children, d + 1)[j - 1]);
            }
        }
    } else {
        let j = i - fa.len();
        assert(row == flat_nodes(rest, d)[j]);
        lemma_row_set(rest, d, j, v);
        lemma_row_in_tree(rest, d, j);
        assert(n.path != p);
        lemma_path_absent(n.children, p, e);
        lemma_path_absent(n.children, p, v);
        assert((NodeView { children: n.children, ..n }) == n);
        assert(set[0] == n);
        assert(set.drop_first() == set_path_expanded(rest, p, v));
        assert(flat_nodes(set, d)[i] == flat_nodes(set_path_expanded(rest, p, v), d)[j]);
        assert forall|k: int| 0 <= k < i implies #[trigger] flat_nodes(set, d)[k] == flat_nodes(ns, d)[k] by {
            if k >= fa.len() {
                assert(flat_nodes(set, d)[k] == flat_nodes(set_path_expanded(rest, p, v), d)[k - fa.len()]);
                assert(flat_nodes(ns, d)[k] == flat_nodes(rest, d)[k - fa.len()]);
            }
        }
    }
}

/// Setting a path's flag keeps the number of sibling nodes.
proof fn lemma_set_path_len(ns: Seq<NodeView>, path: Seq<char>, v: bool)
    ensures
        set_path_expanded(ns, path, v).len() == ns.len(),
    decreases ns,
{
    if ns.len() > 0 && ns[0].path != path {
        lemma_set_path_len(ns.drop_first(), path, v);
    }
}

/// Toggling the folder drawn on a row twice (as `toggle_expand` does, on
/// the same row) leaves the tree as it was, when no two nodes share a
/// path: the first toggle leaves the rows before it as they were and that
/// node on the row with its flag flipped, and the second flips it back.
pub proof fn lemma_toggle_twice(ns: Seq<NodeView>, i: int)
    requires
        paths_unique(ns),
        0 <= i < flat_nodes(ns, 0).len(),
    ensures
        ({
            let row = flat_nodes(ns, 0)[i];
            let once = set_path_expanded(ns, row.path, !row.expanded);
            &&& i < flat_nodes(once, 0).len()
            &&& flat_nodes(once, 0)[i].path == row.path
            &&& flat_nodes(once, 0)[i].expanded == !row.expanded
            &&& forall|j: int| 0 <= j < i ==> #[trigger] flat_nodes(once, 0)[j] == flat_nodes(ns, 0)[j]
            &&& set_path_expanded(
                once,
                flat_nodes(once, 0)[i].path,
                !flat_nodes(once, 0)[i].expanded,
            ) == ns
        }),
{
    let row = flat_nodes(ns, 0)[i];
    lemma_row_set(ns, 0, i, !row.expanded);
    lemma_set_path_restores(ns, row.path, row.expanded);
}

/// A row before the toggled one stays as it was.
proof fn lemma_toggle_keeps_row(ns: Seq<NodeView>, i: int, j: int)
    requires
        paths_unique(ns),
        0 <= j < i < flat_nodes(ns, 0).len(),
    ensures
        flat_nodes(set_path_expanded(ns, flat_nodes(ns, 0)[i].path, !flat_nodes(ns, 0)[i].expanded), 0)[j]
            == flat_nodes(ns, 0)[j],
{
    let row = flat_nodes(ns, 0)[i];
    lemma_row_set(ns, 0, i, !row.expanded);
    let after = flat_nodes(set_path_expanded(ns, row.path, !row.expanded), 0);
    assert(after[j] == flat_nodes(ns, 0)[j]);
}

pub proof fn lemma_nodes_view_update(ns: Seq<FileNode>, i: int, x: FileNode)
    requires
        0 <= i < ns.len(),
    ensures
        nodes_view(ns.update(i, x)) == nodes_view(ns).update(i, node_view(x)),
{
    lemma_nodes_view(ns);
    lemma_nodes_view(ns.update(i, x));
    assert(nodes_view(ns.update(i, x)) =~= nodes_view(ns).update(i, node_view(x)));
}

/// Sets the expanded flag of the node with the given path (see
/// [`set_path_expanded`]).
pub fn set_expanded_recursive(nodes: &mut Vec<FileNode>, path: &str, value: bool)
    ensures
        nodes_view(final(nodes)@) == set_path_expanded(nodes_view(old(nodes)@), path@, value),
    decreases *old(nodes),
{
    let ghost orig = nodes_view(nodes@);
    proof {
        lemma_nodes_view(nodes@);
        assert(orig.skip(0) =~= orig);
        assert(nodes_view(nodes@).take(0) =~= Seq::<NodeView>::empty());
    }
    let mut i: usize = 0;
    while i < nodes.len()
        invariant
            i <= nodes@.len(),
            nodes@.len() == old(nodes)@.len(),
            orig == nodes_view(old(nodes)@),
            orig.len() == old(nodes)@.len(),
            forall|k: int| i <= k < nodes@.len() ==> #[trigger] nodes@[k] == old(nodes)@[k],
            nodes_view(nodes@).skip(i as int) == orig.skip(i as int),
            set_path_expanded(orig, path@, value) == nodes_view(nodes@).take(i as int)
                + set_path_expanded(orig.skip(i as int), path@, value),
        decreases nodes@.len() - i,
    {
        let ghost before = nodes@;
        proof {
            lemma_nodes_view(before);
            lemma_nodes_view(old(nodes)@);
            assert(orig.skip(i as int)[0] == orig[i as int]);
            assert(orig[i as int] == node_view(old(nodes)@[i as int]));
            assert(orig.skip(i as int).drop_first() =~= orig.skip(i + 1));
        }
        let node = &mut nodes[i];
        if str_equal(node.path.as_str(), path) {
            node.expanded = value;
            proof {
                lemma_nodes_view_update(before, i as int, *node);
                let nv = nodes_view(nodes@);
                assert(nv =~= nodes_view(before).take(i as int) + seq![with_expanded(orig[i as int], value)]
                    + orig.skip(i + 1));
            }
            return;
        }
        assert(decreases_to!(*old(nodes) => old(nodes)@[i as int]));
        set_expanded_recursive(&mut node.children, path, value);
        proof {
            lemma_nodes_view_update(before, i as int, *node);
            let nv = nodes_view(nodes@);
            assert(nv.take(i + 1) =~= nodes_view(before).take(i as int).push(node_view(*node)));
            assert(nv.skip(i + 1) =~= orig.skip(i + 1));
        }
        i += 1;
    }
    proof {
        lemma_nodes_view(nodes@);
        assert(orig.skip(i as int) =~= Seq::<NodeView>::empty());
        assert(nodes_view(nodes@).take(i as int) =~= nodes_view(nodes@));
    }
}

/// Sets the expanded flag of every node and of all their descendants.
pub fn set_all_expanded_recursive(nodes: &mut Vec<FileNode>, value: bool)
    ensures
        nodes_view(final(nodes)@) == set_all_expanded(nodes_view(old(nodes)@), value),
    decreases *old(nodes),
{
    let ghost orig = nodes_view(nodes@);
    proof {
        lemma_nodes_view(nodes@);
        assert(orig.skip(0) =~= orig);
        assert(nodes_view(nodes@).take(0) =~= Seq::<NodeView>::empty());
    }
    let mut i: usize = 0;
    while i < nodes.len()
        invariant
            i <= nodes@.len(),
            nodes@.len() == old(nodes)@.len(),
            orig == nodes_view(old(nodes)@),
            orig.len() == old(nodes)@.len(),
            forall|k: int| i <= k < nodes@.len() ==> #[trigger] nodes@[k] == old(nodes)@[k],
            nodes_view(nodes@).skip(i as int) == orig.skip(i as int),
            set_all_expanded(orig, value) == nodes_view(nodes@).take(i as int) + set_all_expanded(
                orig.skip(i as int),
                value,
            ),
        decreases nodes@.len() - i,
    {
        let ghost before = nodes@;
        proof {
            lemma_nodes_view(before);
            lemma_nodes_view(old(nodes)@);
            assert(orig.skip(i as int)[0] == orig[i as int]);
            assert(orig[i as int] == node_view(old(nodes)@[i as int]));
            assert(orig.skip(i as int).drop_first() =~= orig.skip(i + 1));
        }
        let node = &mut nodes[i];
        node.expanded = value;
        assert(decreases_to!(*old(nodes) => old(nodes)@[i as int]));
        set_all_expanded_recursive(&mut node.children, value);
        proof {
            lemma_nodes_view_update(before, i as int, *node);
            let nv = nodes_view(nodes@);
            assert(nv.take(i + 1) =~= nodes_view(before).take(i as int).push(node_view(*node)));
            assert(nv.skip(i + 1) =~= orig.skip(i + 1));
        }
        i += 1;
    }
    proof {
        lemma_nodes_view(nodes@);
        assert(orig.skip(i as int) =~= Seq::<NodeView>::empty());
        assert(nodes_view(nodes@).take(i as int) =~= nodes_view(nodes@));
    }
}

/// The number of levels of a listing entry (1 for a file).
pub open spec fn entry_height(e: EntryView) -> nat
    decreases e, 0nat,
{
    1 + entries_height(e.children)
}

/// The greatest height among listing entries (0 for none).
pub open spec fn entries_height(es: Seq<EntryView>) -> nat
    decreases es, 1nat,
{
    if es.len() == 0 {
        0
    } else {
        proof {
            assert(decreases_to!(es => es[0]));
        }
        let a = entry_height(es[0]);
        let b = entries_height(es.drop_first());
        if a >= b {
            a
        } else {
            b
        }
    }
}

pub proof fn lemma_entries_height(es: Seq<EntryView>)
    ensures
        forall|i: int| 0 <= i < es.len() ==> entry_height(#[trigger] es[i]) <= entries_height(es),
    decreases es.len(),
{
    if es.len() > 0 {
        lemma_entries_height(es.drop_first());
        assert forall|i: int| 0 <= i < es.len() implies entry_height(#[trigger] es[i]) <= entries_height(
            es,
        ) by {
            if i > 0 {
                assert(es[i] == es.drop_first()[i - 1]);
            }
        }
    }
}

pub proof fn lemma_nodes_height_prepend(a: NodeView, rest: Seq<NodeView>)
    ensures
        nodes_height(seq![a] + rest) == (if node_height(a) >= nodes_height(rest) {
            node_height(a)
        } else {
            nodes_height(rest)
        }),
{
    let s = seq![a] + rest;
    assert(s[0] == a);
    assert(s.drop_first() =~= rest);
}

/// A directory's tree is no taller than its listing.
pub proof fn lemma_dir_node_height(e: EntryView)
    ensures
        node_height(dir_node(e)) <= entry_height(e),
    decreases e, 0nat,
{
    lemma_order_height(e.children, child_order(e.children), 0);
}

pub proof fn lemma_order_height(es: Seq<EntryView>, order: Seq<int>, k: int)
    ensures
        nodes_height(nodes_in_order(es, order, k)) <= entries_height(es),
    decreases es, order.len() - k,
{
    if 0 <= k < order.len() {
        let j = order[k];
        lemma_order_height(es, order, k + 1);
        if 0 <= j < es.len() {
            lemma_entries_height(es);
            let node = if es[j].is_dir {
                dir_node(es[j])
            } else {
                file_node(es[j])
            };
            if es[j].is_dir {
                assert(decreases_to!(es => es[j]));
                lemma_dir_node_height(es[j]);
            } else {
                assert(nodes_height(file_node(es[j]).children) == 0);
            }
            lemma_nodes_height_prepend(node, nodes_in_order(es, order, k + 1));
        }
    }
}

/// Setting one node's expanded flag leaves the height unchanged.
pub proof fn lemma_set_path_height(ns: Seq<NodeView>, path: Seq<char>, value: bool)
    ensures
        nodes_height(set_path_expanded(ns, path, value)) == nodes_height(ns),
    decreases ns,
{
    if ns.len() > 0 {
        lemma_nodes_height_prepend(ns[0], ns.drop_first());
        assert(seq![ns[0]] + ns.drop_first() =~= ns);
        if ns[0].path == path {
            lemma_nodes_height_prepend(with_expanded(ns[0], value), ns.drop_first());
        } else {
            assert(decreases_to!(ns => ns[0]));
            assert(decreases_to!(ns[0] => ns[0].children));
            lemma_set_path_height(ns[0].children, path, value);
            lemma_set_path_height(ns.drop_first(), path, value);
            let n = ns[0];
            lemma_nodes_height_prepend(
                NodeView { children: set_path_expanded(n.children, path, value), ..n },
                set_path_expanded(ns.drop_first(), path, value),
            );
        }
    }
}

/// Setting every expanded flag leaves the height unchanged.
pub proof fn lemma_set_all_height(ns: Seq<NodeView>, value: bool)
    ensures
        nodes_height(set_all_expanded(ns, value)) == nodes_height(ns),
    decreases ns,
{
    if ns.len() > 0 {
        lemma_nodes_height_prepend(ns[0], ns.drop_first());
        assert(seq![ns[0]] + ns.drop_first() =~= ns);
        assert(decreases_to!(ns => ns[0]));
        assert(decreases_to!(ns[0] => ns[0].children));
        lemma_set_all_height(ns[0].children, value);
        lemma_set_all_height(ns.drop_first(), value);
        let n = ns[0];
        lemma_nodes_height_prepend(
            NodeView { expanded: value, children: set_all_expanded(n.children, value), ..n },
            set_all_expanded(ns.drop_first(), value),
        );
    }
}

/// The state of the file tree panel: the root nodes, the selected path, the
/// data directory, the rows drawn, and the cut/copied path.
pub struct FileTreeState {
    pub root_nodes: Vec<FileNode>,
    pub selected_path: Option<String>,
    pub data_dir: Option<String>,
    pub flat_list: Vec<FlatItem>,
    pub clipboard_path: Option<String>,
    pub clipboard_is_cut: bool,
    pub clipboard_is_dir: bool,
}

impl FileTreeState {
    /// The rows drawn, as values.
    pub open spec fn rows(&self) -> Seq<FlatView> {
        flat_views(self.flat_list@)
    }

    /// The tree is no deeper than `usize` counts: every operation of the
    /// tree keeps this so, and each asks it.
    pub open spec fn height_fits(&self) -> bool {
        nodes_height(nodes_view(self.root_nodes@)) <= usize::MAX
    }

    /// The rows drawn are the tree's nodes flattened: every operation of
    /// the tree keeps this so.
    pub open spec fn rows_match(&self) -> bool {
        self.rows() == flat_nodes(nodes_view(self.root_nodes@), 0)
    }

    /// An empty tree with no data directory.
    pub fn new() -> (r: Self)
        ensures
            r.root_nodes@.len() == 0,
            r.selected_path.is_none(),
            r.data_dir.is_none(),
            r.rows().len() == 0,
            r.rows_match(),
            r.height_fits(),
            r.clipboard_path.is_none(),
            !r.clipboard_is_cut,
            !r.clipboard_is_dir,
    {
        let r = Self {
            root_nodes: Vec::new(),
            selected_path: None,
            data_dir: None,
            flat_list: Vec::new(),
            clipboard_path: None,
            clipboard_is_cut: false,
            clipboard_is_dir: false,
        };
        assert(nodes_view(r.root_nodes@) =~= Seq::<NodeView>::empty());
        assert(flat_views(r.flat_list@) =~= Seq::<FlatView>::empty());
        r
    }

    fn rebuild_flat(&mut self)
        requires
            nodes_height(nodes_view(old(self).root_nodes@)) <= usize::MAX,
        ensures
            final(self).rows() == flat_nodes(nodes_view(old(self).root_nodes@), 0),
            final(self).root_nodes == old(self).root_nodes,
            final(self).selected_path == old(self).selected_path,
            final(self).data_dir == old(self).data_dir,
            final(self).clipboard_path == old(self).clipboard_path,
            final(self).clipboard_is_cut == old(self).clipboard_is_cut,
            final(self).clipboard_is_dir == old(self).clipboard_is_dir,
    {
        self.flat_list.clear();
        let ghost rv = nodes_view(self.root_nodes@);
        proof {
            lemma_nodes_view(self.root_nodes@);
            lemma_nodes_height(rv);
            assert(rv.take(0) =~= Seq::<NodeView>::empty());
            assert(flat_views(self.flat_list@) =~= Seq::<FlatView>::empty());
        }
        let mut k: usize = 0;
        while k < self.root_nodes.len()
            invariant
                k <= self.root_nodes@.len(),
                self.root_nodes == old(self).root_nodes,
                self.selected_path == old(self).selected_path,
                self.data_dir == old(self).data_dir,
                self.clipboard_path == old(self).clipboard_path,
                self.clipboard_is_cut == old(self).clipboard_is_cut,
                self.clipboard_is_dir == old(self).clipboard_is_dir,
                rv == nodes_view(self.root_nodes@),
                rv.len() == self.root_nodes@.len(),
                forall|i: int| 0 <= i < rv.len() ==> #[trigger] rv[i] == node_view(self.root_nodes@[i]),
                forall|i: int| 0 <= i < rv.len() ==> node_height(#[trigger] rv[i]) <= nodes_height(rv),
                nodes_height(rv) <= usize::MAX,
                flat_views(self.flat_list@) == flat_nodes(rv.take(k as int), 0),
            decreases self.root_nodes@.len() - k,
        {
            let ghost t = rv.take(k + 1);
            assert(rv[k as int] == node_view(self.root_nodes@[k as int]));
            flatten_node_into(&self.root_nodes[k], 0, &mut self.flat_list);
            assert(t.drop_last() =~= rv.take(k as int));
            k += 1;
        }
        assert(rv.take(k as int) =~= rv);
    }

    /// Sets the data directory and builds the tree from its listing.
    pub fn set_data_dir(&mut self, dir: &DirEntryInfo)
        requires
            entry_height(entry_view(*dir)) <= usize::MAX,
        ensures
            final(self).data_dir == Some(dir.path),
            nodes_view(final(self).root_nodes@) == seq![dir_node(entry_view(*dir))],
            final(self).rows() == flat_nodes(seq![dir_node(entry_view(*dir))], 0),
            final(self).selected_path == old(self).selected_path,
            final(self).clipboard_path == old(self).clipboard_path,
            final(self).clipboard_is_cut == old(self).clipboard_is_cut,
            final(self).clipboard_is_dir == old(self).clipboard_is_dir,
            final(self).rows_match(),
            final(self).height_fits(),
    {
        self.data_dir = Some(dir.path.clone());
        let root = FileNode::from_dir(dir);
        let mut roots: Vec<FileNode> = Vec::new();
        roots.push(root);
        self.root_nodes = roots;
        proof {
            lemma_dir_node_height(entry_view(*dir));
            assert(self.root_nodes@.drop_last() =~= Seq::<FileNode>::empty());
            lemma_nodes_view(self.root_nodes@);
            assert(self.root_nodes@[0] == root);
            assert(nodes_view(self.root_nodes@) =~= seq![node_view(root)]);
            lemma_nodes_height_prepend(node_view(root), Seq::<NodeView>::empty());
            assert(seq![node_view(root)] + Seq::<NodeView>::empty() =~= seq![node_view(root)]);
        }
        self.rebuild_flat();
    }

    /// Rebuilds the tree from a new listing of the data directory; does
    /// nothing when no data directory is set.
    pub fn refresh(&mut self, dir: &DirEntryInfo)
        requires
            entry_height(entry_view(*dir)) <= usize::MAX,
        ensures
            old(self).data_dir.is_none() ==> *final(self) == *old(self),
            old(self).data_dir.is_some() ==> nodes_view(final(self).root_nodes@) == seq![
                dir_node(entry_view(*dir)),
            ] && final(self).rows() == flat_nodes(seq![dir_node(entry_view(*dir))], 0)
                && final(self).data_dir == old(self).data_dir,
            final(self).selected_path == old(self).selected_path,
            final(self).clipboard_path == old(self).clipboard_path,
            final(self).clipboard_is_cut == old(self).clipboard_is_cut,
            final(self).clipboard_is_dir == old(self).clipboard_is_dir,
            old(self).rows_match() ==> final(self).rows_match(),
            old(self).height_fits() ==> final(self).height_fits(),
            old(self).data_dir.is_some() ==> final(self).height_fits(),
    {
        if self.data_dir.is_some() {
            let root = FileNode::from_dir(dir);
            let mut roots: Vec<FileNode> = Vec::new();
            roots.push(root);
            self.root_nodes = roots;
            proof {
                lemma_dir_node_height(entry_view(*dir));
                assert(self.root_nodes@.drop_last() =~= Seq::<FileNode>::empty());
                lemma_nodes_view(self.root_nodes@);
            assert(self.root_nodes@[0] == root);
            assert(nodes_view(self.root_nodes@) =~= seq![node_view(root)]);
                lemma_nodes_height_prepend(node_view(root), Seq::<NodeView>::empty());
                assert(seq![node_view(root)] + Seq::<NodeView>::empty() =~= seq![node_view(root)]);
            }
            self.rebuild_flat();
        }
    }

    /// Flips the expanded flag of the node drawn on row `index` and
    /// redraws; an index past the rows changes nothing.
    pub fn toggle_expand(&mut self, index: usize)
        requires
            nodes_height(nodes_view(old(self).root_nodes@)) <= usize::MAX,
        ensures
            index >= old(self).rows().len() ==> *final(self) == *old(self),
            index < old(self).rows().len() ==> {
                let row = old(self).rows()[index as int];
                let nodes = set_path_expanded(nodes_view(old(self).root_nodes@), row.path, !row.expanded);
                &&& nodes_view(final(self).root_nodes@) == nodes
                &&& final(self).rows() == flat_nodes(nodes, 0)
            },
            final(self).selected_path == old(self).selected_path,
            final(self).data_dir == old(self).data_dir,
            final(self).clipboard_path == old(self).clipboard_path,
            final(self).clipboard_is_cut == old(self).clipboard_is_cut,
            final(self).clipboard_is_dir == old(self).clipboard_is_dir,
            old(self).rows_match() ==> final(self).rows_match(),
            final(self).height_fits(),
            index < old(self).rows().len() && old(self).rows_match() && paths_unique(
                nodes_view(old(self).root_nodes@),
            ) ==> {
                let row = old(self).rows()[index as int];
                &&& index < final(self).rows().len()
                &&& forall|j: int| 0 <= j < index ==> #[trigger] final(self).rows()[j] == old(self).rows()[j]
                &&& final(self).rows()[index as int].path == row.path
                &&& final(self).rows()[index as int].expanded == !row.expanded
                &&& set_path_expanded(nodes_view(final(self).root_nodes@), row.path, row.expanded)
                    == nodes_view(old(self).root_nodes@)
            },
    {
        let ghost before = *self;
        if index >= self.flat_list.len() {
            return;
        }
        let path = self.flat_list[index].path.clone();
        let expanded = self.flat_list[index].expanded;

        assert(self.rows()[index as int] == self.flat_list@[index as int]@);
        set_expanded_recursive(&mut self.root_nodes, path.as_str(), !expanded);
        proof {
            lemma_set_path_height(nodes_view(old(self).root_nodes@), path@, !expanded);
        }
        self.rebuild_flat();
        proof {
            if before.rows_match() && paths_unique(nodes_view(before.root_nodes@)) {
                let ns = nodes_view(before.root_nodes@);
                lemma_toggle_twice(ns, index as int);
                let row = flat_nodes(ns, 0)[index as int];
                assert(row == before.rows()[index as int]);
                assert(row.path == path@ && row.expanded == expanded);
                let once = set_path_expanded(ns, row.path, !row.expanded);
                assert(nodes_view(self.root_nodes@) == once);
                assert(self.rows() == flat_nodes(once, 0));
                assert forall|j: int| 0 <= j < index implies #[trigger] self.rows()[j] == before.rows()[j] by {
                    lemma_toggle_keeps_row(ns, index as int, j);
                }
            }
        }
    }

    /// Expands every folder and redraws.
    pub fn expand_all(&mut self)
        requires
            nodes_height(nodes_view(old(self).root_nodes@)) <= usize::MAX,
        ensures
            nodes_view(final(self).root_nodes@) == set_all_expanded(nodes_view(old(self).root_nodes@), true),
            final(self).rows() == flat_nodes(nodes_view(final(self).root_nodes@), 0),
            final(self).selected_path == old(self).selected_path,
            final(self).data_dir == old(self).data_dir,
            final(self).clipboard_path == old(self).clipboard_path,
            final(self).clipboard_is_cut == old(self).clipboard_is_cut,
            final(self).clipboard_is_dir == old(self).clipboard_is_dir,
            final(self).rows_match(),
            final(self).height_fits(),
    {
        set_all_expanded_recursive(&mut self.root_nodes, true);
        proof {
            lemma_set_all_height(nodes_view(old(self).root_nodes@), true);
        }
        self.rebuild_flat();
    }

    /// Collapses every folder and redraws.
    pub fn collapse_all(&mut self)
        requires
            nodes_height(nodes_view(old(self).root_nodes@)) <= usize::MAX,
        ensures
            nodes_view(final(self).root_nodes@) == set_all_expanded(nodes_view(old(self).root_nodes@), false),
            final(self).rows() == flat_nodes(nodes_view(final(self).root_nodes@), 0),
            final(self).selected_path == old(self).selected_path,
            final(self).data_dir == old(self).data_dir,
            final(self).clipboard_path == old(self).clipboard_path,
            final(self).clipboard_is_cut == old(self).clipboard_is_cut,
            final(self).clipboard_is_dir == old(self).clipboard_is_dir,
            final(self).rows_match(),
            final(self).height_fits(),
    {
        set_all_expanded_recursive(&mut self.root_nodes, false);
        proof {
            lemma_set_all_height(nodes_view(old(self).root_nodes@), false);
        }
        self.rebuild_flat();
    }

    /// A click on row `index`: the row becomes the selected one; a file's
    /// path is handed back to be opened. An index past the rows changes
    /// nothing.
    pub fn click_row(&mut self, index: usize) -> (r: Option<String>)
        ensures
            index >= old(self).rows().len() ==> r is None && *final(self) == *old(self),
            index < old(self).rows().len() ==> {
                let row = old(self).rows()[index as int];
                &&& final(self).selected_path matches Some(p) && p@ == row.path
                &&& match r {
                    Some(f) => !row.is_dir && f@ == row.path,
                    None => row.is_dir,
                }
            },
            final(self).root_nodes == old(self).root_nodes,
            final(self).rows() == old(self).rows(),
            old(self).rows_match() ==> final(self).rows_match(),
            final(self).data_dir == old(self).data_dir,
            final(self).clipboard_path == old(self).clipboard_path,
            final(self).clipboard_is_cut == old(self).clipboard_is_cut,
            final(self).clipboard_is_dir == old(self).clipboard_is_dir,
            old(self).height_fits() ==> final(self).height_fits(),
    {
        if index >= self.flat_list.len() {
            return None;
        }
        assert(self.rows()[index as int] == self.flat_list@[index as int]@);
        let path = self.flat_list[index].path.clone();
        let is_dir = self.flat_list[index].is_dir;
        self.selected_path = Some(path.clone());
        if is_dir {
            None
        } else {
            Some(path)
        }
    }

    /// Puts `path` on the tree's clipboard, to be moved (`cut`) or copied
    /// by the next paste.
    pub fn set_clipboard(&mut self, path: String, is_dir: bool, cut: bool)
        ensures
            final(self).clipboard_path == Some(path),
            final(self).clipboard_is_dir == is_dir,
            final(self).clipboard_is_cut == cut,
            final(self).root_nodes == old(self).root_nodes,
            final(self).rows() == old(self).rows(),
            old(self).rows_match() ==> final(self).rows_match(),
            final(self).selected_path == old(self).selected_path,
            final(self).data_dir == old(self).data_dir,
            old(self).height_fits() ==> final(self).height_fits(),
    {
        self.clipboard_is_dir = is_dir;
        self.clipboard_path = Some(path);
        self.clipboard_is_cut = cut;
    }

    /// The rows drawn.
    pub fn flat_items(&self) -> (r: &[FlatItem])
        ensures
            flat_views(r@) == self.rows(),
    {
        self.flat_list.as_slice()
    }
}

} // verus!