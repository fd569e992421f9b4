use vstd::prelude::*;
use vstd::string::{StrSliceExecFns, StringExecFns};
use crate::text::{
    is_separator, lemma_tokens_append, lemma_tokens_valid, literal, push_char, split_tokens, strs,
    tokens, tokens_upto, Separator,
};

verus! {

/// The owner given to the root and, on the first build, to every node.
pub const SHELL_USER: &'static str = "ilya";

/// Where the tree is read from and which script may run at start.
#[derive(Debug)]
pub struct VFSArgs {
    pub storage: Option<String>,
    pub startapp: Option<String>,
}

/// What went wrong in a file-system operation.
#[derive(Clone, Copy, PartialEq, Eq, Structural, Debug)]
pub enum ErrorKind {
    NotFound,
    NotADirectory,
    InvalidArgument,
    IoFailure,
}

/// An error of a file-system operation: its kind and a one-line message.
#[derive(Debug)]
pub struct VfsError {
    pub kind: ErrorKind,
    pub message: String,
}

impl VfsError {
    /// The message, as shown after the failing command's name.
    pub fn to_string(&self) -> (r: String)
        ensures
            r@ == self.message@,
    {
        self.message.clone()
    }
}

/// A file or a directory of the tree.
#[derive(Debug)]
pub enum VFSNode {
    File { name: String, owner: String },
    Dir { name: String, children: Vec<VFSNode>, owner: String },
}

/// An entry of a directory as read from disk; the tree is built from these.
#[derive(Debug)]
pub enum DiskEntry {
    File { name: String },
    Dir { name: String, entries: Vec<DiskEntry> },
}

pub open spec fn node_name(n: VFSNode) -> Seq<char> {
    match n {
        VFSNode::File { name, .. } => name@,
        VFSNode::Dir { name, .. } => name@,
    }
}

pub open spec fn node_owner(n: VFSNode) -> Seq<char> {
    match n {
        VFSNode::File { owner, .. } => owner@,
        VFSNode::Dir { owner, .. } => owner@,
    }
}

/// The children of a directory, in stored order; a file has none.
pub open spec fn node_children(n: VFSNode) -> Seq<VFSNode> {
    match n {
        VFSNode::File { .. } => Seq::empty(),
        VFSNode::Dir { children, .. } => children@,
    }
}

/// `i` is the first child of `children` whose name is `name`.
pub open spec fn first_child_named(children: Seq<VFSNode>, name: Seq<char>, i: int) -> bool {
    &&& 0 <= i < children.len()
    &&& node_name(children[i]) == name
    &&& forall|j: int| 0 <= j < i ==> node_name(#[trigger] children[j]) != name
}

/// A node named by the child indices taken from the root down, or why the
/// lookup failed.
pub enum Resolution {
    Found(Seq<usize>),
    Failed(ErrorKind, Seq<char>),
}

pub open spec fn not_found_message(seg: Seq<char>) -> Seq<char> {
    "dir not found: "@ + seg
}

pub open spec fn not_a_dir_message(seg: Seq<char>) -> Seq<char> {
    seg + " is a file, not a directory"@
}

/// Walks the segments `segs` down from `n`, taking at each directory the
/// first child of the segment's name.
pub open spec fn resolve_from(n: VFSNode, segs: Seq<Seq<char>>) -> Resolution
    decreases segs.len(),
{
    if segs.len() == 0 {
        Resolution::Found(Seq::empty())
    } else {
        match n {
            VFSNode::File { .. } => Resolution::Failed(
                ErrorKind::NotADirectory,
                not_a_dir_message(segs[0]),
            ),
            VFSNode::Dir { children, .. } => {
                if exists|i: int| first_child_named(children@, segs[0], i) {
                    let i = choose|i: int| first_child_named(children@, segs[0], i);
                    match resolve_from(children@[i], segs.drop_first()) {
                        Resolution::Found(p) => Resolution::Found(seq![i as usize] + p),
                        Resolution::Failed(k, m) => Resolution::Failed(k, m),
                    }
                } else {
                    Resolution::Failed(ErrorKind::NotFound, not_found_message(segs[0]))
                }
            },
        }
    }
}

/// `p` leads from `n` through directories to some node.
pub open spec fn valid_index_path(n: VFSNode, p: Seq<usize>) -> bool
    decreases p.len(),
{
    p.len() == 0 || (n is Dir && p[0] < node_children(n).len() && valid_index_path(
        node_children(n)[p[0] as int],
        p.drop_first(),
    ))
}

/// The node that `p` leads to from `n`.
pub open spec fn node_at(n: VFSNode, p: Seq<usize>) -> VFSNode
    decreases p.len(),
{
    if p.len() == 0 {
        n
    } else {
        node_at(node_children(n)[p[0] as int], p.drop_first())
    }
}

/// The names of the nodes that `p` passes through below `n`, `n` excluded.
pub open spec fn names_along(n: VFSNode, p: Seq<usize>) -> Seq<Seq<char>>
    decreases p.len(),
{
    if p.len() == 0 {
        Seq::empty()
    } else {
        let c = node_children(n)[p[0] as int];
        seq![node_name(c)] + names_along(c, p.drop_first())
    }
}

/// `/` before each segment.
pub open spec fn slash_joined(segs: Seq<Seq<char>>) -> Seq<char>
    decreases segs.len(),
{
    if segs.len() == 0 {
        Seq::empty()
    } else {
        slash_joined(segs.drop_last()) + seq!['/'] + segs.last()
    }
}

/// The absolute path made of `segs`; `/` for none.
pub open spec fn path_string(segs: Seq<Seq<char>>) -> Seq<char> {
    if segs.len() == 0 {
        seq!['/']
    } else {
        slash_joined(segs)
    }
}

/// `p` made absolute against the current path `cur`.
pub open spec fn absolute(cur: Seq<char>, p: Seq<char>) -> Seq<char> {
    if p.len() > 0 && p[0] == '/' {
        p
    } else if cur == seq!['/'] {
        seq!['/'] + p
    } else {
        cur + seq!['/'] + p
    }
}


/// `b` is `a` with the owner of the node at `p` set to `o`, all else kept.
pub open spec fn owner_updated(a: VFSNode, b: VFSNode, p: Seq<usize>, o: Seq<char>) -> bool
    decreases p.len(),
{
    &&& (a is Dir <==> b is Dir)
    &&& node_name(b) == node_name(a)
    &&& if p.len() == 0 {
        node_children(b) == node_children(a) && node_owner(b) == o
    } else {
        let i = p[0] as int;
        &&& node_owner(b) == node_owner(a)
        &&& node_children(b).len() == node_children(a).len()
        &&& forall|j: int|
            0 <= j < node_children(a).len() && j != i ==> #[trigger] node_children(b)[j]
                == node_children(a)[j]
        &&& owner_updated(node_children(a)[i], node_children(b)[i], p.drop_first(), o)
    }
}

/// The path that `cd` goes to: `/` without an argument.
pub open spec fn cd_target(args: Seq<Seq<char>>) -> Seq<char> {
    if args.len() == 0 {
        "/"@
    } else {
        args[0]
    }
}

/// What listing a directory shows, or why it fails.
pub enum Listing {
    Entries(Seq<VFSNode>),
    Error(ErrorKind, Seq<char>),
}

pub open spec fn not_a_dir_listing_message(name: Seq<char>) -> Seq<char> {
    name + ": not a dir"@
}

pub open spec fn node_not_found_message() -> Seq<char> {
    "node not found"@
}

/// `n` mirrors the disk entry `e`, with every node owned by `owner`.
pub open spec fn mirrors(n: VFSNode, e: DiskEntry, owner: Seq<char>) -> bool
    decreases e,
{
    match e {
        DiskEntry::File { name } => n is File && node_name(n) == name@ && node_owner(n) == owner,
        DiskEntry::Dir { name, entries } => {
            &&& n is Dir
            &&& node_name(n) == name@
            &&& node_owner(n) == owner
            &&& node_children(n).len() == entries@.len()
            &&& forall|i: int|
                0 <= i < entries@.len() ==> mirrors(
                    #[trigger] node_children(n)[i],
                    entries@[i],
                    owner,
                )
        },
    }
}

/// Each of `ns` mirrors the entry of `es` at the same place.
pub open spec fn mirrors_all(ns: Seq<VFSNode>, es: Seq<DiskEntry>, owner: Seq<char>) -> bool {
    &&& ns.len() == es.len()
    &&& forall|i: int| 0 <= i < es.len() ==> mirrors(#[trigger] ns[i], es[i], owner)
}

/// `segs` could be the tokens of a path: each non-empty and without `/`.
pub open spec fn segments_valid(segs: Seq<Seq<char>>) -> bool {
    &&& forall|k: int| 0 <= k < segs.len() ==> #[trigger] segs[k].len() > 0
    &&& forall|k: int, m: int|
        0 <= k < segs.len() && 0 <= m < segs[k].len() ==> #[trigger] segs[k][m] != '/'
}

proof fn lemma_tokens_slash_only()
    ensures
        tokens(seq!['/'], Separator::Slash) == Seq::<Seq<char>>::empty(),
        tokens(Seq::<char>::empty(), Separator::Slash) == Seq::<Seq<char>>::empty(),
{
    let s = seq!['/'];
    assert(tokens_upto(s, 0, Separator::Slash) == (Seq::<Seq<char>>::empty(), Seq::<char>::empty()));
    assert(tokens_upto(s, 1, Separator::Slash) == (Seq::<Seq<char>>::empty(), Seq::<char>::empty()));
    let e = Seq::<char>::empty();
    assert(tokens_upto(e, 0, Separator::Slash) == (Seq::<Seq<char>>::empty(), Seq::<char>::empty()));
}

proof fn lemma_slash_joined(segs: Seq<Seq<char>>)
    requires
        segments_valid(segs),
    ensures
        tokens(slash_joined(segs), Separator::Slash) == segs,
        segs.len() > 0 ==> slash_joined(segs).len() > 0 && slash_joined(segs)[0] == '/',
    decreases segs.len(),
{
    lemma_tokens_slash_only();
    if segs.len() == 0 {
        assert(slash_joined(segs) =~= Seq::<char>::empty());
    } else {
        let init = segs.drop_last();
        let x = segs.last();
        assert forall|k: int| 0 <= k < init.len() implies #[trigger] init[k].len() > 0 by {
            assert(init[k] == segs[k]);
        }
        assert forall|k: int, m: int| 0 <= k < init.len() && 0 <= m < init[k].len() implies #[trigger] init[k][m]
            != '/' by {
            assert(init[k] == segs[k]);
        }
        lemma_slash_joined(init);
        assert(x == segs[segs.len() - 1]);
        assert forall|k: int| 0 <= k < x.len() implies !is_separator(Separator::Slash, #[trigger] x[k]) by {
            assert(segs[segs.len() - 1][k] != '/');
        }
        lemma_tokens_append(slash_joined(init), '/', x, Separator::Slash);
        assert(init.push(x) =~= segs);
        if init.len() == 0 {
            assert(slash_joined(init) =~= Seq::<char>::empty());
            assert((slash_joined(init) + seq!['/'] + x)[0] == '/');
        } else {
            assert((slash_joined(init) + seq!['/'] + x)[0] == slash_joined(init)[0]);
        }
    }
}

/// The canonical path of valid segments is absolute and splits back into them.
pub proof fn lemma_path_string_tokens(segs: Seq<Seq<char>>)
    requires
        segments_valid(segs),
    ensures
        tokens(path_string(segs), Separator::Slash) == segs,
        path_string(segs).len() > 0 && path_string(segs)[0] == '/',
{
    lemma_tokens_slash_only();
    lemma_slash_joined(segs);
    if segs.len() == 0 {
        assert(segs =~= Seq::<Seq<char>>::empty());
    }
}

/// Changing an owner changes no lookup.
pub proof fn lemma_owner_update_keeps_resolution(
    a: VFSNode,
    b: VFSNode,
    p: Seq<usize>,
    o: Seq<char>,
    segs: Seq<Seq<char>>,
)
    requires
        owner_updated(a, b, p, o),
    ensures
        resolve_from(b, segs) == resolve_from(a, segs),
    decreases segs.len(),
{
    reveal_with_fuel(owner_updated, 2);
    if segs.len() > 0 && a is Dir {
        let ca = node_children(a);
        let cb = node_children(b);
        assert(ca.len() == cb.len());
        assert forall|j: int| 0 <= j < ca.len() implies node_name(#[trigger] cb[j]) == node_name(ca[j]) by {
            if p.len() > 0 && j == p[0] as int {
            } else if p.len() > 0 {
                assert(cb[j] == ca[j]);
            }
        }
        let x = segs[0];
        assert forall|i: int| first_child_named(ca, x, i) <==> first_child_named(cb, x, i) by {
            if first_child_named(ca, x, i) {
                assert forall|j: int| 0 <= j < i implies node_name(#[trigger] cb[j]) != x by {
                    assert(node_name(ca[j]) != x);
                }
            }
            if first_child_named(cb, x, i) {
                assert forall|j: int| 0 <= j < i implies node_name(#[trigger] ca[j]) != x by {
                    assert(node_name(cb[j]) != x);
                }
            }
        }
        if exists|i: int| first_child_named(ca, x, i) {
            let i = choose|i: int| first_child_named(ca, x, i);
            let ib = choose|i: int| first_child_named(cb, x, i);
            lemma_first_child_unique(ca, x, i, ib);
            if p.len() > 0 && i == p[0] as int {
                lemma_owner_update_keeps_resolution(ca[i], cb[i], p.drop_first(), o, segs.drop_first());
            } else if p.len() > 0 {
                assert(cb[i] == ca[i]);
            }
        }
    }
}

/// Resolving one more segment continues from where the others led.
pub proof fn lemma_resolve_push(n: VFSNode, segs: Seq<Seq<char>>, x: Seq<char>)
    ensures
        resolve_from(n, segs.push(x)) == match resolve_from(n, segs) {
            Resolution::Found(q) => match resolve_from(node_at(n, q), seq![x]) {
                Resolution::Found(r) => Resolution::Found(q + r),
                Resolution::Failed(k, m) => Resolution::Failed(k, m),
            },
            Resolution::Failed(k, m) => Resolution::Failed(k, m),
        },
    decreases segs.len(),
{
    if segs.len() == 0 {
        assert(segs.push(x) =~= seq![x]);
        let r = resolve_from(n, seq![x]);
        if r is Found {
            assert(Seq::<usize>::empty() + r->Found_0 =~= r->Found_0);
        }
    } else {
        assert(segs.push(x)[0] == segs[0]);
        assert(segs.push(x).drop_first() =~= segs.drop_first().push(x));
        if n is Dir {
            let c = node_children(n);
            if exists|i: int| first_child_named(c, segs[0], i) {
                let i = choose|i: int| first_child_named(c, segs[0], i);
                lemma_resolve_push(c[i], segs.drop_first(), x);
                let rest = resolve_from(c[i], segs.drop_first());
                if rest is Found {
                    let q = rest->Found_0;
                    let q2 = seq![i as usize] + q;
                    assert(q2.drop_first() =~= q);
                    assert(q2[0] == i as usize);
                    if let VFSNode::Dir { children: cv, .. } = n {
                        assert(cv.len() == cv@.len());
                    }
                    assert(node_at(n, q2) == node_at(c[i], q));
                    let last = resolve_from(node_at(c[i], q), seq![x]);
                    if last is Found {
                        assert(q2 + last->Found_0 =~= seq![i as usize] + (q + last->Found_0));
                    }
                }
            }
        }
    }
}

impl VFSNode {
    pub fn name(&self) -> (r: &String)
        ensures
            r@ == node_name(*self),
    {
        match self {
            VFSNode::File { name, .. } => name,
            VFSNode::Dir { name, .. } => name,
        }
    }

    pub fn owner(&self) -> (r: &String)
        ensures
            r@ == node_owner(*self),
    {
        match self {
            VFSNode::File { owner, .. } => owner,
            VFSNode::Dir { owner, .. } => owner,
        }
    }
}


/// The session's file system: the tree, the acting user, where the tree was
/// read from, and the current directory.
#[derive(Debug)]
pub struct VFS {
    pub root: VFSNode,
    pub user: String,
    pub sys_path_name: String,
    pub current_path: String,
}

/// `r` is an error of kind `k` with message `m`.
pub open spec fn is_error<T>(r: Result<T, VfsError>, k: ErrorKind, m: Seq<char>) -> bool {
    r matches Err(e) && e.kind == k && e.message@ == m
}

pub open spec fn too_many_args_message() -> Seq<char> {
    "too many args"@
}

fn make_error(kind: ErrorKind, message: String) -> (e: VfsError)
    ensures
        e.kind == kind,
        e.message@ == message@,
{
    VfsError { kind, message }
}

/// The first child of `children` named `name`.
fn find_child(children: &Vec<VFSNode>, name: &String) -> (r: Option<usize>)
    ensures
        match r {
            Some(i) => first_child_named(children@, name@, i as int),
            None => forall|i: int| !first_child_named(children@, name@, i),
        },
{
    let mut j: usize = 0;
    while j < children.len()
        invariant
            j <= children@.len(),
            forall|k: int| 0 <= k < j ==> node_name(#[trigger] children@[k]) != name@,
        decreases children@.len() - j,
    {
        let nm: &String = children[j].name();
        if nm.eq(name) {
            return Some(j);
        }
        j = j + 1;
    }
    None
}

proof fn lemma_first_child_unique(children: Seq<VFSNode>, name: Seq<char>, i: int, j: int)
    requires
        first_child_named(children, name, i),
        first_child_named(children, name, j),
    ensures
        i == j,
{
    if i < j {
        assert(node_name(children[i]) != name);
    } else if j < i {
        assert(node_name(children[j]) != name);
    }
}

/// A found index path is valid, and leads through nodes named as the segments.
pub proof fn lemma_found_is_valid(n: VFSNode, segs: Seq<Seq<char>>)
    requires
        resolve_from(n, segs) is Found,
    ensures
        valid_index_path(n, resolve_from(n, segs)->Found_0),
        names_along(n, resolve_from(n, segs)->Found_0) == segs,
    decreases segs.len(),
{
    if segs.len() > 0 {
        let children = node_children(n);
        let i = choose|i: int| first_child_named(children, segs[0], i);
        lemma_found_is_valid(children[i], segs.drop_first());
        let p = resolve_from(n, segs)->Found_0;
        if let VFSNode::Dir { children: cv, .. } = n {
            assert(cv.len() == cv@.len());
        }
        let q = resolve_from(children[i], segs.drop_first())->Found_0;
        assert(p.drop_first() =~= q);
        assert(p[0] == i as usize);
        assert(names_along(n, p) =~= seq![segs[0]] + segs.drop_first());
        assert(segs =~= seq![segs[0]] + segs.drop_first());
    }
}

/// Sets the owner of the node that `idx[k..]` leads to from `node`.
fn set_owner_at(node: &mut VFSNode, idx: &Vec<usize>, k: usize, new_owner: String)
    requires
        k <= idx@.len(),
        valid_index_path(*old(node), idx@.subrange(k as int, idx@.len() as int)),
    ensures
        owner_updated(*old(node), *final(node), idx@.subrange(k as int, idx@.len() as int), new_owner@),
    decreases idx@.len() - k,
{
    let ghost rest = idx@.subrange(k as int, idx@.len() as int);
    if k == idx.len() {
        match node {
            VFSNode::File { owner, .. } => {
                *owner = new_owner;
            },
            VFSNode::Dir { owner, .. } => {
                *owner = new_owner;
            },
        }
    } else {
        assert(rest.drop_first() =~= idx@.subrange(k + 1, idx@.len() as int));
        match node {
            VFSNode::Dir { children, .. } => {
                let i = idx[k];
                set_owner_at(&mut children[i], idx, k + 1, new_owner);
            },
            VFSNode::File { .. } => {},
        }
    }
}

/// Builds the nodes for `entries`, in their order, directories with their
/// contents; every node is owned by `owner`.
fn init_dir_reader(entries: &Vec<DiskEntry>, owner: &String) -> (r: Vec<VFSNode>)
    ensures
        mirrors_all(r@, entries@, owner@),
    decreases entries@,
{
    let mut out: Vec<VFSNode> = Vec::new();
    let mut i: usize = 0;
    while i < entries.len()
        invariant
            i <= entries@.len(),
            out@.len() == i,
            forall|j: int| 0 <= j < i ==> mirrors(#[trigger] out@[j], entries@[j], owner@),
        decreases entries@.len() - i,
    {
        let child = match &entries[i] {
            DiskEntry::File { name } => VFSNode::File { name: name.clone(), owner: owner.clone() },
            DiskEntry::Dir { name, entries: sub } => {
                proof {
                    assert(decreases_to!(entries@ => entries@[i as int]));
                    assert(decreases_to!(entries@[i as int] => sub@));
                }
                let children = init_dir_reader(sub, owner);
                VFSNode::Dir { name: name.clone(), children, owner: owner.clone() }
            },
        };
        out.push(child);
        i = i + 1;
    }
    out
}

impl VFS {
    /// The current path is absolute and leads to a node.
    pub open spec fn wf(self) -> bool {
        &&& self.current_path@.len() > 0
        &&& self.current_path@[0] == '/'
        &&& self.lookup(self.current_path@) is Found
    }

    /// Where `path` leads from the current directory.
    pub open spec fn lookup(self, path: Seq<char>) -> Resolution {
        resolve_from(self.root, tokens(absolute(self.current_path@, path), Separator::Slash))
    }

    /// A session at `/` over a tree whose root `/` holds the nodes built from
    /// `listing`, the entries read from `storage_path`.
    pub fn new(user: String, storage_path: String, listing: Vec<DiskEntry>) -> (r: VFS)
        ensures
            r.user == user,
            r.sys_path_name == storage_path,
            r.current_path@ == "/"@,
            r.root is Dir,
            node_name(r.root) == "/"@,
            node_owner(r.root) == SHELL_USER@,
            mirrors_all(node_children(r.root), listing@, SHELL_USER@),
            r.wf(),
    {
        let owner = literal(SHELL_USER);
        let children = init_dir_reader(&listing, &owner);
        let root = VFSNode::Dir { name: literal("/"), children, owner };
        let r = VFS { root, user, sys_path_name: storage_path, current_path: literal("/") };
        proof {
            reveal_strlit("/");
            lemma_tokens_slash_only();
            assert(r.current_path@ =~= seq!['/']);
            assert(absolute(r.current_path@, r.current_path@) == r.current_path@);
            assert(resolve_from(r.root, Seq::<Seq<char>>::empty()) is Found);
        }
        r
    }

    /// What `list_dir(args)` shows.
    pub open spec fn list_spec(self, args: Seq<Seq<char>>) -> Listing {
        if args.len() > 1 {
            Listing::Error(ErrorKind::InvalidArgument, too_many_args_message())
        } else {
            let target = if args.len() == 0 {
                self.current_path@
            } else {
                args[0]
            };
            match self.lookup(target) {
                Resolution::Found(p) => {
                    let n = node_at(self.root, p);
                    if n is Dir {
                        Listing::Entries(node_children(n))
                    } else {
                        Listing::Error(ErrorKind::InvalidArgument, not_a_dir_listing_message(node_name(n)))
                    }
                },
                Resolution::Failed(k, m) => Listing::Error(k, m),
            }
        }
    }

    /// The node that `idx` leads to from the root.
    pub fn node_ref(&self, idx: &Vec<usize>) -> (r: &VFSNode)
        requires
            valid_index_path(self.root, idx@),
        ensures
            *r == node_at(self.root, idx@),
    {
        let mut cur: &VFSNode = &self.root;
        let mut k: usize = 0;
        assert(idx@.subrange(0, idx@.len() as int) =~= idx@);
        while k < idx.len()
            invariant
                k <= idx@.len(),
                valid_index_path(*cur, idx@.subrange(k as int, idx@.len() as int)),
                node_at(self.root, idx@) == node_at(*cur, idx@.subrange(k as int, idx@.len() as int)),
            decreases idx@.len() - k,
        {
            let ghost rest = idx@.subrange(k as int, idx@.len() as int);
            assert(rest.drop_first() =~= idx@.subrange(k + 1, idx@.len() as int));
            match cur {
                VFSNode::Dir { children, .. } => {
                    cur = &children[idx[k]];
                },
                VFSNode::File { .. } => {},
            }
            k = k + 1;
        }
        assert(idx@.subrange(k as int, idx@.len() as int) =~= Seq::<usize>::empty());
        cur
    }

    /// The canonical absolute path of the node that `node` leads to from the
    /// root: the names along the way, each after a `/`.
    pub fn get_path_from_node(&self, node: &Vec<usize>) -> (r: Result<String, VfsError>)
        ensures
            valid_index_path(self.root, node@) ==> (r matches Ok(s) && s@ == path_string(
                names_along(self.root, node@),
            )),
            !valid_index_path(self.root, node@) ==> is_error(
                r,
                ErrorKind::NotFound,
                node_not_found_message(),
            ),
    {
        let mut cur: &VFSNode = &self.root;
        let mut out = String::new();
        let ghost mut seen: Seq<Seq<char>> = Seq::empty();
        let mut k: usize = 0;
        assert(node@.subrange(0, node@.len() as int) =~= node@);
        assert(seen + names_along(self.root, node@) =~= names_along(self.root, node@));
        while k < node.len()
            invariant
                k <= node@.len(),
                valid_index_path(self.root, node@) == valid_index_path(
                    *cur,
                    node@.subrange(k as int, node@.len() as int),
                ),
                names_along(self.root, node@) == seen + names_along(
                    *cur,
                    node@.subrange(k as int, node@.len() as int),
                ),
                out@ == slash_joined(seen),
                seen.len() == k,
            decreases node@.len() - k,
        {
            let ghost rest = node@.subrange(k as int, node@.len() as int);
            assert(rest.drop_first() =~= node@.subrange(k + 1, node@.len() as int));
            match cur {
                VFSNode::Dir { children, .. } => {
                    if node[k] >= children.len() {
                        return Err(make_error(ErrorKind::NotFound, literal("node not found")));
                    }
                    let child = &children[node[k]];
                    proof {
                        let x = node_name(*child);
                        assert(seen.push(x).drop_last() =~= seen);
                        assert(seen + (seq![x] + names_along(*child, rest.drop_first())) =~= seen.push(x)
                            + names_along(*child, rest.drop_first()));
                        seen = seen.push(x);
                    }
                    push_char(&mut out, '/');
                    out.append(child.name().as_str());
                    cur = child;
                },
                VFSNode::File { .. } => {
                    return Err(make_error(ErrorKind::NotFound, literal("node not found")));
                },
            }
            k = k + 1;
        }
        assert(node@.subrange(k as int, node@.len() as int) =~= Seq::<usize>::empty());
        assert(seen + Seq::<Seq<char>>::empty() =~= seen);
        if k == 0 {
            proof {
                reveal_strlit("/");
            }
            Ok(literal("/"))
        } else {
            Ok(out)
        }
    }

    /// Goes to the directory named by the single argument, or to `/`
    /// without one; returns the child indices that lead to it from the root.
    pub fn change_dir(&mut self, args: Vec<String>) -> (r: Result<Vec<usize>, VfsError>)
        ensures
            args@.len() > 1 ==> is_error(r, ErrorKind::InvalidArgument, too_many_args_message())
                && *final(self) == *old(self),
            args@.len() <= 1 ==> match old(self).lookup(cd_target(strs(args@))) {
                Resolution::Found(p) => {
                    &&& r matches Ok(v) && v@ == p
                    &&& final(self).root == old(self).root
                    &&& final(self).user == old(self).user
                    &&& final(self).sys_path_name == old(self).sys_path_name
                    &&& final(self).current_path@ == path_string(names_along(old(self).root, p))
                },
                Resolution::Failed(k, m) => is_error(r, k, m) && *final(self) == *old(self),
            },
            old(self).wf() ==> final(self).wf(),
    {
        let path = if args.len() == 0 {
            literal("/")
        } else if args.len() > 1 {
            return Err(make_error(ErrorKind::InvalidArgument, literal("too many args")));
        } else {
            args[0].clone()
        };
        let idx = match self.get_node_from_path(&path) {
            Ok(v) => v,
            Err(e) => return Err(e),
        };
        proof {
            lemma_found_is_valid(
                self.root,
                tokens(absolute(self.current_path@, path@), Separator::Slash),
            );
        }
        let new_path = match self.get_path_from_node(&idx) {
            Ok(s) => s,
            Err(e) => return Err(e),
        };
        proof {
            let segs = tokens(absolute(self.current_path@, path@), Separator::Slash);
            lemma_tokens_valid(absolute(self.current_path@, path@), Separator::Slash);
            lemma_path_string_tokens(segs);
            assert(absolute(new_path@, new_path@) == new_path@);
        }
        self.current_path = new_path;
        Ok(idx)
    }

    /// The children of the directory named by the single argument, or of
    /// the current directory without one, in stored order.
    pub fn list_dir(&self, args: Vec<String>) -> (r: Result<&Vec<VFSNode>, VfsError>)
        ensures
            match self.list_spec(strs(args@)) {
                Listing::Entries(c) => r matches Ok(v) && v@ == c,
                Listing::Error(k, m) => is_error(r, k, m),
            },
    {
        let path = if args.len() == 0 {
            self.current_path.clone()
        } else if args.len() > 1 {
            return Err(make_error(ErrorKind::InvalidArgument, literal("too many args")));
        } else {
            args[0].clone()
        };
        let idx = match self.get_node_from_path(&path) {
            Ok(v) => v,
            Err(e) => return Err(e),
        };
        proof {
            lemma_found_is_valid(
                self.root,
                tokens(absolute(self.current_path@, path@), Separator::Slash),
            );
        }
        let node = self.node_ref(&idx);
        match node {
            VFSNode::Dir { children, .. } => Ok(children),
            VFSNode::File { name, .. } => {
                let mut m = name.clone();
                m.append(": not a dir");
                Err(make_error(ErrorKind::InvalidArgument, m))
            },
        }
    }

    /// Sets the owner of the node named by `node_path`.
    pub fn set_node_owner(&mut self, node_path: String, new_owner: String) -> (r: Result<(), VfsError>)
        ensures
            match old(self).lookup(node_path@) {
                Resolution::Found(p) => {
                    &&& r is Ok
                    &&& owner_updated(old(self).root, final(self).root, p, new_owner@)
                    &&& final(self).user == old(self).user
                    &&& final(self).sys_path_name == old(self).sys_path_name
                    &&& final(self).current_path == old(self).current_path
                },
                Resolution::Failed(k, m) => is_error(r, k, m) && *final(self) == *old(self),
            },
            old(self).wf() ==> final(self).wf(),
    {
        let idx = match self.get_node_from_path(&node_path) {
            Ok(v) => v,
            Err(e) => return Err(e),
        };
        proof {
            lemma_found_is_valid(
                self.root,
                tokens(absolute(self.current_path@, node_path@), Separator::Slash),
            );
            assert(idx@.subrange(0, idx@.len() as int) =~= idx@);
        }
        let ghost old_root = self.root;
        let ghost o = new_owner@;
        set_owner_at(&mut self.root, &idx, 0, new_owner);
        proof {
            let cur = self.current_path@;
            lemma_owner_update_keeps_resolution(
                old_root,
                self.root,
                idx@,
                o,
                tokens(absolute(cur, cur), Separator::Slash),
            );
        }
        Ok(())
    }

    /// Makes `path` absolute against the current directory.
    fn absolute_path(&self, path: &String) -> (r: String)
        ensures
            r@ == absolute(self.current_path@, path@),
    {
        if path.unicode_len() > 0 && path.as_str().get_char(0) == '/' {
            path.clone()
        } else {
            let mut full = String::new();
            if self.current_path.unicode_len() == 1 && self.current_path.as_str().get_char(0)
                == '/' {
                assert(self.current_path@ =~= seq!['/']);
            } else {
                full.append(self.current_path.as_str());
                assert(self.current_path@ != seq!['/']);
            }
            push_char(&mut full, '/');
            full.append(path.as_str());
            full
        }
    }

    /// Resolves `path` against the current directory to the child indices
    /// that lead to its node from the root.
    pub fn get_node_from_path(&self, path: &String) -> (r: Result<Vec<usize>, VfsError>)
        ensures
            match self.lookup(path@) {
                Resolution::Found(p) => r matches Ok(v) && v@ == p,
                Resolution::Failed(k, m) => is_error(r, k, m),
            },
    {
        let full = self.absolute_path(path);
        let segs = split_tokens(full.as_str(), Separator::Slash);
        let ghost all = segs@.map_values(|t: String| t@);
        let mut cur: &VFSNode = &self.root;
        let mut out: Vec<usize> = Vec::new();
        let mut k: usize = 0;
        assert(all.subrange(0, all.len() as int) =~= all);
        proof {
            let r = resolve_from(self.root, all);
            if r is Found {
                assert(out@ + r->Found_0 =~= r->Found_0);
            }
        }
        while k < segs.len()
            invariant
                k <= segs@.len(),
                all == segs@.map_values(|t: String| t@),
                all == tokens(absolute(self.current_path@, path@), Separator::Slash),
                resolve_from(self.root, all) == match resolve_from(*cur, all.subrange(k as int, all.len() as int)) {
                    Resolution::Found(p) => Resolution::Found(out@ + p),
                    Resolution::Failed(kd, m) => Resolution::Failed(kd, m),
                },
            decreases segs@.len() - k,
        {
            let ghost rest = all.subrange(k as int, all.len() as int);
            assert(rest[0] == segs@[k as int]@);
            assert(rest.drop_first() =~= all.subrange(k + 1, all.len() as int));
            match cur {
                VFSNode::File { .. } => {
                    let mut m = segs[k].clone();
                    m.append(" is a file, not a directory");
                    return Err(make_error(ErrorKind::NotADirectory, m));
                },
                VFSNode::Dir { children, .. } => {
                    match find_child(children, &segs[k]) {
                        Some(i) => {
                            proof {
                                let c = choose|c: int| first_child_named(children@, rest[0], c);
                                lemma_first_child_unique(children@, rest[0], c, i as int);
                                let ghost tail = resolve_from(children@[i as int], rest.drop_first());
                                if tail is Found {
                                    assert(out@ + (seq![i] + tail->Found_0) =~= out@.push(i) + tail->Found_0);
                                }
                            }
                            out.push(i);
                            cur = &children[i];
                        },
                        None => {
                            let mut m = literal("dir not found: ");
                            m.append(segs[k].as_str());
                            return Err(make_error(ErrorKind::NotFound, m));
                        },
                    }
                },
            }
            k = k + 1;
        }
        assert(all.subrange(k as int, all.len() as int) =~= Seq::<Seq<char>>::empty());
        assert(out@ + Seq::<usize>::empty() =~= out@);
        Ok(out)
    }
}

/// Resolving an absolute path and recovering the canonical path of the node
/// found gives the path back, with empty segments (repeated or trailing
/// slashes) dropped.
pub proof fn lemma_resolve_then_recover(v: VFS, p: Seq<char>)
    requires
        p.len() > 0,
        p[0] == '/',
        v.lookup(p) is Found,
    ensures
        valid_index_path(v.root, v.lookup(p)->Found_0),
        path_string(names_along(v.root, v.lookup(p)->Found_0)) == path_string(
            tokens(p, Separator::Slash),
        ),
{
    lemma_found_is_valid(v.root, tokens(p, Separator::Slash));
}

/// `..` is no way up: it names a child called `..` of the current node, as
/// any other name would, and is not found where there is none.
pub proof fn lemma_dot_dot_is_a_name(v: VFS)
    requires
        v.wf(),
    ensures
        v.lookup(".."@) == match resolve_from(
            node_at(v.root, v.lookup(v.current_path@)->Found_0),
            seq![".."@],
        ) {
            Resolution::Found(r) => Resolution::Found(v.lookup(v.current_path@)->Found_0 + r),
            Resolution::Failed(k, m) => Resolution::Failed(k, m),
        },
        ({
            let here = node_at(v.root, v.lookup(v.current_path@)->Found_0);
            here is Dir && (forall|i: int| !first_child_named(node_children(here), ".."@, i))
                ==> v.lookup(".."@) == Resolution::Failed(
                ErrorKind::NotFound,
                not_found_message(".."@),
            )
        }),
{
    reveal_strlit("..");
    let cur = v.current_path@;
    let x = ".."@;
    let segs = tokens(cur, Separator::Slash);
    assert(absolute(cur, cur) == cur);
    assert forall|k: int| 0 <= k < x.len() implies !is_separator(Separator::Slash, #[trigger] x[k]) by {}
    if cur == seq!['/'] {
        lemma_tokens_slash_only();
        assert(seq!['/'] + x =~= Seq::<char>::empty() + seq!['/'] + x);
        lemma_tokens_append(Seq::<char>::empty(), '/', x, Separator::Slash);
        assert(segs.push(x) =~= seq![x]);
    } else {
        lemma_tokens_append(cur, '/', x, Separator::Slash);
    }
    lemma_resolve_push(v.root, segs, x);
    let here = node_at(v.root, v.lookup(cur)->Found_0);
    if here is Dir && (forall|i: int| !first_child_named(node_children(here), x, i)) {
        let sx = seq![x];
        assert(sx.len() == 1 && sx[0] == x);
        if let VFSNode::Dir { children, .. } = here {
            assert(node_children(here) == children@);
            assert(!exists|i: int| first_child_named(children@, sx[0], i));
        }
    }
}

/// Right after the tree is built, listing with no argument shows exactly
/// the top-level entries read from disk, in their order.
pub proof fn lemma_fresh_root_listing(v: VFS, listing: Seq<DiskEntry>)
    requires
        v.current_path@ == "/"@,
        v.root is Dir,
        mirrors_all(node_children(v.root), listing, SHELL_USER@),
    ensures
        v.list_spec(Seq::empty()) matches Listing::Entries(c) && mirrors_all(
            c,
            listing,
            SHELL_USER@,
        ),
{
    reveal_strlit("/");
    let s = v.current_path@;
    assert(absolute(s, s) == s);
    assert(tokens_upto(s, 0, Separator::Slash) == (Seq::<Seq<char>>::empty(), Seq::<char>::empty()));
    assert(tokens_upto(s, 1, Separator::Slash) == (Seq::<Seq<char>>::empty(), Seq::<char>::empty()));
    assert(tokens(s, Separator::Slash) == Seq::<Seq<char>>::empty());
    assert(node_at(v.root, Seq::empty()) == v.root);
}

} // verus!
