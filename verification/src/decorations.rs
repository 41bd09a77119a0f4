//! Decorations of the file explorer: a symbol and a colour shown next to a
//! path, kept for the path itself and bubbled up to every folder above it
//! within the explorer's root.

use vstd::prelude::*;

verus! {

// ---------------------------------------------------------------------------
// Paths.
// ---------------------------------------------------------------------------

/// A component of a path, as `std::path::Path::components` yields it.
#[derive(Debug)]
pub enum PathPart {
    /// A Windows prefix such as `C:`.
    Prefix(String),
    /// The root directory.
    Root,
    /// `.` at the start of a relative path.
    CurDir,
    /// `..`
    ParentDir,
    Normal(String),
}

/// What a path component is.
pub enum PartModel {
    Prefix(Seq<char>),
    Root,
    CurDir,
    ParentDir,
    Normal(Seq<char>),
}

impl View for PathPart {
    type V = PartModel;

    open spec fn view(&self) -> PartModel {
        match self {
            PathPart::Prefix(s) => PartModel::Prefix(s@),
            PathPart::Root => PartModel::Root,
            PathPart::CurDir => PartModel::CurDir,
            PathPart::ParentDir => PartModel::ParentDir,
            PathPart::Normal(s) => PartModel::Normal(s@),
        }
    }
}

impl PathPart {
    /// A copy of the component.
    pub fn duplicate(&self) -> (r: PathPart)
        ensures
            r@ == self@,
    {
        match self {
            PathPart::Prefix(s) => PathPart::Prefix(s.clone()),
            PathPart::Root => PathPart::Root,
            PathPart::CurDir => PathPart::CurDir,
            PathPart::ParentDir => PathPart::ParentDir,
            PathPart::Normal(s) => PathPart::Normal(s.clone()),
        }
    }

    /// Whether two components are the same.
    pub fn same_as(&self, other: &PathPart) -> (r: bool)
        ensures
            r == (self@ == other@),
    {
        match (self, other) {
            (PathPart::Prefix(a), PathPart::Prefix(b)) => *a == *b,
            (PathPart::Root, PathPart::Root) => true,
            (PathPart::CurDir, PathPart::CurDir) => true,
            (PathPart::ParentDir, PathPart::ParentDir) => true,
            (PathPart::Normal(a), PathPart::Normal(b)) => *a == *b,
            _ => false,
        }
    }

    /// Whether the component anchors a path: a path that ends in a root or a
    /// prefix has no parent.
    pub fn is_anchor(&self) -> (r: bool)
        ensures
            r == is_anchor(self@),
    {
        match self {
            PathPart::Prefix(_) => true,
            PathPart::Root => true,
            _ => false,
        }
    }
}

pub open spec fn is_anchor(c: PartModel) -> bool {
    c is Root || c is Prefix
}

/// A path, as the sequence of its components.  Paths are equal, and one
/// starts with another, component by component, as `std::path::Path` has it.
#[derive(Debug)]
pub struct DecorationPath {
    pub parts: Vec<PathPart>,
}

impl View for DecorationPath {
    type V = Seq<PartModel>;

    open spec fn view(&self) -> Seq<PartModel> {
        self.parts@.map_values(|p: PathPart| p@)
    }
}

/// `p` starts with `base`: its first components are those of `base`.
pub open spec fn path_starts_with(p: Seq<PartModel>, base: Seq<PartModel>) -> bool {
    base.len() <= p.len() && p.take(base.len() as int) == base
}

/// `a` is one of the ancestors of `p` (`Path::ancestors`: `p`, its parent,
/// the parent of that, and so on): a leading part of `p` reached by
/// dropping final components none of which anchors the path.
pub open spec fn is_ancestor(a: Seq<PartModel>, p: Seq<PartModel>) -> bool {
    &&& a.len() <= p.len()
    &&& a == p.take(a.len() as int)
    &&& forall|j: int| a.len() <= j < p.len() ==> !is_anchor(#[trigger] p[j])
}

impl DecorationPath {
    /// A copy of the path.
    pub fn duplicate(&self) -> (r: DecorationPath)
        ensures
            r@ == self@,
    {
        self.leading(self.parts.len())
    }

    /// The path of the first `len` components.
    pub fn leading(&self, len: usize) -> (r: DecorationPath)
        requires
            len <= self@.len(),
        ensures
            r@ == self@.take(len as int),
    {
        let mut parts: Vec<PathPart> = Vec::new();
        let mut i: usize = 0;
        while i < len
            invariant
                len <= self.parts@.len(),
                i <= len,
                parts@.map_values(|p: PathPart| p@) == self@.take(i as int),
            decreases len - i,
        {
            let part = self.parts[i].duplicate();
            let ghost before = parts@;
            parts.push(part);
            proof {
                assert(parts@ == before.push(part));
                assert(parts@.map_values(|p: PathPart| p@) =~= before.map_values(|p: PathPart| p@).push(
                    part@,
                ));
                assert(self@.take(i + 1) =~= self@.take(i as int).push(self@[i as int]));
            }
            i += 1;
        }
        DecorationPath { parts }
    }

    /// Whether two paths are the same.
    pub fn same_as(&self, other: &DecorationPath) -> (r: bool)
        ensures
            r == (self@ == other@),
    {
        if self.parts.len() != other.parts.len() {
            proof {
                if self@ == other@ {
                    assert(self@.len() == other@.len());
                }
            }
            return false;
        }
        let r = self.starts_with(other);
        proof {
            assert(self@.take(self@.len() as int) =~= self@);
        }
        r
    }

    /// Whether the path starts with `base`, component by component.
    pub fn starts_with(&self, base: &DecorationPath) -> (r: bool)
        ensures
            r == path_starts_with(self@, base@),
    {
        let n = base.parts.len();
        if n > self.parts.len() {
            return false;
        }
        let mut i: usize = 0;
        while i < n
            invariant
                n == base@.len(),
                n <= self@.len(),
                i <= n,
                forall|j: int| 0 <= j < i ==> self@[j] == base@[j],
            decreases n - i,
        {
            if !self.parts[i].same_as(&base.parts[i]) {
                proof {
                    assert(self@.take(n as int)[i as int] != base@[i as int]);
                }
                return false;
            }
            i += 1;
        }
        proof {
            assert(self@.take(n as int) =~= base@);
        }
        true
    }
}

// ---------------------------------------------------------------------------
// Decorations.
// ---------------------------------------------------------------------------

/// A decoration of a path in the file explorer.
#[derive(Debug)]
pub struct FileExplorerDecoration {
    pub path: DecorationPath,
    pub symbol: String,
    /// RGB colour of the symbol.
    pub color: [u8; 3],
    /// Of two decorations of one path, the one of higher priority is shown.
    pub priority: i32,
}

pub struct DecorationModel {
    pub path: Seq<PartModel>,
    pub symbol: Seq<char>,
    pub color: [u8; 3],
    pub priority: i32,
}

impl View for FileExplorerDecoration {
    type V = DecorationModel;

    open spec fn view(&self) -> DecorationModel {
        DecorationModel { path: self.path@, symbol: self.symbol@, color: self.color, priority: self.priority }
    }
}

impl FileExplorerDecoration {
    /// A copy of the decoration.
    pub fn duplicate(&self) -> (r: FileExplorerDecoration)
        ensures
            r@ == self@,
    {
        FileExplorerDecoration {
            path: self.path.duplicate(),
            symbol: self.symbol.clone(),
            color: self.color,
            priority: self.priority,
        }
    }
}

/// The same decoration, shown at another path.
pub open spec fn moved_to(d: DecorationModel, path: Seq<PartModel>) -> DecorationModel {
    DecorationModel { path, ..d }
}

/// Decorations by path: a later entry of a path replaces an earlier one.
pub open spec fn entries_map(s: Seq<DecorationModel>) -> Map<Seq<PartModel>, DecorationModel>
    decreases s.len(),
{
    if s.len() == 0 {
        Map::empty()
    } else {
        entries_map(s.drop_last()).insert(s.last().path, s.last())
    }
}

/// No two entries have the same path.
pub open spec fn distinct_paths(s: Seq<DecorationModel>) -> bool {
    forall|i: int, j: int| 0 <= i < j < s.len() ==> s[i].path != s[j].path
}

/// Add a decoration to a map unless its path already has one of higher
/// priority.
pub open spec fn insert_best_map(
    m: Map<Seq<PartModel>, DecorationModel>,
    d: DecorationModel,
) -> Map<Seq<PartModel>, DecorationModel> {
    if m.contains_key(d.path) && d.priority < m[d.path].priority {
        m
    } else {
        m.insert(d.path, d)
    }
}

/// Keeping the best decoration of a path: the path gains an entry if it had
/// none; its entry becomes the new decoration unless the one it has is of
/// higher priority (of equal priority the newer wins); every other entry
/// stays as it was.
pub proof fn law_insert_best(m: Map<Seq<PartModel>, DecorationModel>, d: DecorationModel)
    ensures
        insert_best_map(m, d).dom() == m.dom().insert(d.path),
        insert_best_map(m, d)[d.path] == if !m.contains_key(d.path) || d.priority >= m[d.path].priority {
            d
        } else {
            m[d.path]
        },
        forall|p: Seq<PartModel>| #[trigger] m.contains_key(p) && p != d.path ==> insert_best_map(m, d)[p]
            == m[p],
{
    if m.contains_key(d.path) && d.priority < m[d.path].priority {
        assert(m.dom().insert(d.path) =~= m.dom());
    }
}

/// The decorations of paths within `root`, each path keeping the best.
pub open spec fn direct_map(decs: Seq<DecorationModel>, root: Seq<PartModel>) -> Map<
    Seq<PartModel>,
    DecorationModel,
>
    decreases decs.len(),
{
    if decs.len() == 0 {
        Map::empty()
    } else {
        let m = direct_map(decs.drop_last(), root);
        if path_starts_with(decs.last().path, root) {
            insert_best_map(m, decs.last())
        } else {
            m
        }
    }
}

proof fn lemma_entries_map(s: Seq<DecorationModel>)
    requires
        distinct_paths(s),
    ensures
        forall|p: Seq<PartModel>| #[trigger]
            entries_map(s).contains_key(p) <==> exists|i: int| 0 <= i < s.len() && s[i].path == p,
        forall|i: int| 0 <= i < s.len() ==> #[trigger] entries_map(s)[s[i].path] == s[i],
        forall|i: int| 0 <= i < s.len() ==> entries_map(s).contains_key(#[trigger] s[i].path),
    decreases s.len(),
{
    if s.len() > 0 {
        let t = s.drop_last();
        assert(distinct_paths(t));
        lemma_entries_map(t);
        assert forall|p: Seq<PartModel>| #[trigger]
            entries_map(s).contains_key(p) <==> exists|i: int| 0 <= i < s.len() && s[i].path == p by {
            if entries_map(s).contains_key(p) && p != s.last().path {
                assert(entries_map(t).contains_key(p));
                let i = choose|i: int| 0 <= i < t.len() && t[i].path == p;
                assert(t[i] == s[i]);
                assert(s[i].path == p);
            }
            if entries_map(s).contains_key(p) && p == s.last().path {
                assert(s[s.len() - 1].path == p);
            }
            if exists|i: int| 0 <= i < s.len() && s[i].path == p {
                let i = choose|i: int| 0 <= i < s.len() && s[i].path == p;
                if i < s.len() - 1 {
                    assert(t[i] == s[i]);
                    assert(t[i].path == p);
                }
            }
        }
        assert forall|i: int| 0 <= i < s.len() implies #[trigger] entries_map(s)[s[i].path] == s[i] by {
            if i < s.len() - 1 {
                assert(t[i] == s[i]);
                assert(s[i].path != s.last().path);
            }
        }
    }
}

proof fn lemma_entries_map_update(s: Seq<DecorationModel>, i: int, d: DecorationModel)
    requires
        distinct_paths(s),
        0 <= i < s.len(),
        s[i].path == d.path,
    ensures
        distinct_paths(s.update(i, d)),
        entries_map(s.update(i, d)) == entries_map(s).insert(d.path, d),
{
    let u = s.update(i, d);
    lemma_entries_map(s);
    lemma_entries_map(u);
    assert(entries_map(u) =~= entries_map(s).insert(d.path, d)) by {
        assert forall|p: Seq<PartModel>| #[trigger] entries_map(u).contains_key(p) <==> entries_map(s).insert(
            d.path,
            d,
        ).contains_key(p) by {
            if entries_map(u).contains_key(p) {
                let k = choose|k: int| 0 <= k < u.len() && u[k].path == p;
                if k != i {
                    assert(s[k].path == p);
                }
            }
            if entries_map(s).contains_key(p) {
                let k = choose|k: int| 0 <= k < s.len() && s[k].path == p;
                assert(u[k].path == p);
            }
            assert(u[i].path == d.path);
        }
        assert forall|p: Seq<PartModel>| #[trigger] entries_map(u).contains_key(p) implies entries_map(u)[p]
            == entries_map(s).insert(d.path, d)[p] by {
            let k = choose|k: int| 0 <= k < u.len() && u[k].path == p;
            assert(entries_map(u)[u[k].path] == u[k]);
            if k != i {
                assert(entries_map(s)[s[k].path] == s[k]);
            }
        }
    }
}

/// Keep the decoration for its path unless the path has one of higher
/// priority already; of equal priority, the newer wins.
fn insert_best(map: &mut Vec<FileExplorerDecoration>, decoration: FileExplorerDecoration)
    requires
        distinct_paths(old(map)@.map_values(|d: FileExplorerDecoration| d@)),
    ensures
        distinct_paths(final(map)@.map_values(|d: FileExplorerDecoration| d@)),
        entries_map(final(map)@.map_values(|d: FileExplorerDecoration| d@)) == insert_best_map(
            entries_map(old(map)@.map_values(|d: FileExplorerDecoration| d@)),
            decoration@,
        ),
{
    let ghost s = map@.map_values(|d: FileExplorerDecoration| d@);
    proof {
        lemma_entries_map(s);
    }
    let mut i: usize = 0;
    while i < map.len()
        invariant
            s == map@.map_values(|d: FileExplorerDecoration| d@),
            map@ == old(map)@,
            distinct_paths(s),
            i <= map@.len(),
            forall|j: int| 0 <= j < i ==> s[j].path != decoration@.path,
        decreases map@.len() - i,
    {
        if map[i].path.same_as(&decoration.path) {
            proof {
                lemma_entries_map(s);
                assert(s[i as int].path == decoration@.path);
                assert(entries_map(s)[s[i as int].path] == s[i as int]);
            }
            if decoration.priority >= map[i].priority {
                let ghost d = decoration@;
                map.set(i, decoration);
                proof {
                    lemma_entries_map_update(s, i as int, d);
                    assert(map@.map_values(|d: FileExplorerDecoration| d@) =~= s.update(i as int, d));
                    assert(entries_map(map@.map_values(|d: FileExplorerDecoration| d@)) == insert_best_map(
                        entries_map(s),
                        d,
                    ));
                }
            } else {
                assert(entries_map(map@.map_values(|d: FileExplorerDecoration| d@)) == insert_best_map(
                    entries_map(s),
                    decoration@,
                ));
            }
            return;
        }
        i += 1;
    }
    proof {
        assert(!entries_map(s).contains_key(decoration@.path));
    }
    let ghost d = decoration@;
    map.push(decoration);
    proof {
        let t = map@.map_values(|d: FileExplorerDecoration| d@);
        assert(t =~= s.push(d));
        assert(t.drop_last() =~= s);
    }
}

// ---------------------------------------------------------------------------
// The cache.
// ---------------------------------------------------------------------------

/// Decorations looked up while drawing the file explorer: those of paths
/// within the root, and those bubbled up to every folder above them.
#[derive(Debug)]
pub struct FileExplorerDecorationCache {
    direct: Vec<FileExplorerDecoration>,
    bubbled: Vec<FileExplorerDecoration>,
}

impl FileExplorerDecorationCache {
    #[verifier::type_invariant]
    spec fn paths_distinct(&self) -> bool {
        &&& distinct_paths(self.direct@.map_values(|d: FileExplorerDecoration| d@))
        &&& distinct_paths(self.bubbled@.map_values(|d: FileExplorerDecoration| d@))
    }

    /// The decorations of the paths themselves.
    pub closed spec fn direct_view(&self) -> Map<Seq<PartModel>, DecorationModel> {
        entries_map(self.direct@.map_values(|d: FileExplorerDecoration| d@))
    }

    /// The decorations bubbled up to folders.
    pub closed spec fn bubbled_view(&self) -> Map<Seq<PartModel>, DecorationModel> {
        entries_map(self.bubbled@.map_values(|d: FileExplorerDecoration| d@))
    }

    /// An empty cache.
    pub fn new() -> (c: Self)
        ensures
            c.direct_view() == Map::<Seq<PartModel>, DecorationModel>::empty(),
            c.bubbled_view() == Map::<Seq<PartModel>, DecorationModel>::empty(),
    {
        let c = FileExplorerDecorationCache { direct: Vec::new(), bubbled: Vec::new() };
        proof {
            assert(c.direct@.map_values(|d: FileExplorerDecoration| d@) =~= Seq::<DecorationModel>::empty());
            assert(c.bubbled@.map_values(|d: FileExplorerDecoration| d@) =~= Seq::<DecorationModel>::empty());
        }
        c
    }
}

impl Default for FileExplorerDecorationCache {
    /// An empty cache.
    fn default() -> (c: Self)
        ensures
            c.direct_view() == Map::<Seq<PartModel>, DecorationModel>::empty(),
            c.bubbled_view() == Map::<Seq<PartModel>, DecorationModel>::empty(),
    {
        FileExplorerDecorationCache::new()
    }
}

fn find_path(entries: &Vec<FileExplorerDecoration>, path: &DecorationPath) -> (r: Option<usize>)
    requires
        distinct_paths(entries@.map_values(|d: FileExplorerDecoration| d@)),
    ensures
        ({
            let m = entries_map(entries@.map_values(|d: FileExplorerDecoration| d@));
            &&& r is None <==> !m.contains_key(path@)
            &&& r matches Some(i) ==> i < entries@.len() && entries@[i as int]@ == m[path@]
        }),
{
    let ghost s = entries@.map_values(|d: FileExplorerDecoration| d@);
    proof {
        lemma_entries_map(s);
    }
    let mut i: usize = 0;
    while i < entries.len()
        invariant
            s == entries@.map_values(|d: FileExplorerDecoration| d@),
            distinct_paths(s),
            i <= entries@.len(),
            forall|j: int| 0 <= j < i ==> s[j].path != path@,
        decreases entries@.len() - i,
    {
        if entries[i].path.same_as(path) {
            proof {
                lemma_entries_map(s);
                assert(s[i as int].path == path@);
                assert(entries_map(s)[s[i as int].path] == s[i as int]);
            }
            return Some(i);
        }
        i += 1;
    }
    None
}

/// The decoration a map gives a path, or else its canonical path.
pub open spec fn lookup_either(
    m: Map<Seq<PartModel>, DecorationModel>,
    path: Seq<PartModel>,
    canonical: Option<Seq<PartModel>>,
) -> Option<DecorationModel> {
    if m.contains_key(path) {
        Some(m[path])
    } else {
        match canonical {
            Some(c) => if m.contains_key(c) {
                Some(m[c])
            } else {
                None
            },
            None => None,
        }
    }
}

pub open spec fn opt_path_view(p: Option<&DecorationPath>) -> Option<Seq<PartModel>> {
    match p {
        Some(q) => Some(q@),
        None => None,
    }
}

pub open spec fn opt_decoration_view(d: Option<&FileExplorerDecoration>) -> Option<DecorationModel> {
    match d {
        Some(e) => Some(e@),
        None => None,
    }
}

fn lookup_in<'a>(
    entries: &'a Vec<FileExplorerDecoration>,
    path: &DecorationPath,
    canonical: Option<&DecorationPath>,
) -> (r: Option<&'a FileExplorerDecoration>)
    requires
        distinct_paths(entries@.map_values(|d: FileExplorerDecoration| d@)),
    ensures
        opt_decoration_view(r) == lookup_either(
            entries_map(entries@.map_values(|d: FileExplorerDecoration| d@)),
            path@,
            opt_path_view(canonical),
        ),
{
    match find_path(entries, path) {
        Some(i) => Some(&entries[i]),
        None => match canonical {
            Some(c) => match find_path(entries, c) {
                Some(i) => Some(&entries[i]),
                None => None,
            },
            None => None,
        },
    }
}

impl FileExplorerDecorationCache {
    /// The decoration of exactly `path`, or else of its canonical form (the
    /// path with symbolic links resolved, where the caller could resolve it).
    pub fn direct_for_path(
        &self,
        path: &DecorationPath,
        canonical: Option<&DecorationPath>,
    ) -> (r: Option<&FileExplorerDecoration>)
        ensures
            opt_decoration_view(r) == lookup_either(self.direct_view(), path@, opt_path_view(canonical)),
    {
        proof {
            use_type_invariant(self);
        }
        lookup_in(&self.direct, path, canonical)
    }

    /// The decoration bubbled up to `path` (its own, or one of a path below
    /// it), or else to its canonical form.
    pub fn bubbled_for_path(
        &self,
        path: &DecorationPath,
        canonical: Option<&DecorationPath>,
    ) -> (r: Option<&FileExplorerDecoration>)
        ensures
            opt_decoration_view(r) == lookup_either(self.bubbled_view(), path@, opt_path_view(canonical)),
    {
        proof {
            use_type_invariant(self);
        }
        lookup_in(&self.bubbled, path, canonical)
    }
}

/// Decorations by path, of a vector of decorations.
pub open spec fn decoration_map(v: Seq<FileExplorerDecoration>) -> Map<Seq<PartModel>, DecorationModel> {
    entries_map(v.map_values(|d: FileExplorerDecoration| d@))
}

/// `a` receives the decoration of entry `k` of `dv` when it is bubbled up:
/// `a` is an ancestor of the entry's path within `root`.
pub open spec fn contributes(dv: Seq<DecorationModel>, k: int, a: Seq<PartModel>, root: Seq<PartModel>) -> bool {
    &&& 0 <= k < dv.len()
    &&& is_ancestor(a, dv[k].path)
    &&& path_starts_with(a, root)
}

/// What bubbling the first `k` entries of `dv` up gives: the folders they
/// reach, each with the decoration of one of the entries below it, of the
/// highest priority among them.
pub open spec fn bubbled_through(
    b: Map<Seq<PartModel>, DecorationModel>,
    dv: Seq<DecorationModel>,
    k: int,
    root: Seq<PartModel>,
) -> bool {
    &&& forall|a: Seq<PartModel>| #[trigger]
        b.contains_key(a) <==> exists|i: int| 0 <= i < k && contributes(dv, i, a, root)
    &&& forall|a: Seq<PartModel>| #[trigger]
        b.contains_key(a) ==> exists|i: int|
            0 <= i < k && contributes(dv, i, a, root) && b[a] == moved_to(dv[i], a)
    &&& forall|a: Seq<PartModel>, i: int|
        0 <= i < k && #[trigger] contributes(dv, i, a, root) ==> dv[i].priority <= b[a].priority
}

proof fn lemma_direct_map_keys(decs: Seq<DecorationModel>, root: Seq<PartModel>)
    ensures
        forall|p: Seq<PartModel>| #[trigger]
            direct_map(decs, root).contains_key(p) ==> path_starts_with(p, root)
                && direct_map(decs, root)[p].path == p,
    decreases decs.len(),
{
    if decs.len() > 0 {
        let t = decs.drop_last();
        lemma_direct_map_keys(t, root);
        let m = direct_map(t, root);
        let d = decs.last();
        if path_starts_with(d.path, root) {
            assert forall|p: Seq<PartModel>| #[trigger] insert_best_map(m, d).contains_key(p) implies path_starts_with(
                p,
                root,
            ) && insert_best_map(m, d)[p].path == p by {
                if p != d.path {
                    assert(m.contains_key(p));
                }
            }
        }
    }
}

/// Leading parts of a path that starts with `root` start with `root` exactly
/// when they are at least as long.
proof fn lemma_leading_starts_with(p: Seq<PartModel>, root: Seq<PartModel>, m: int)
    requires
        path_starts_with(p, root),
        0 <= m <= p.len(),
    ensures
        path_starts_with(p.take(m), root) <==> root.len() <= m,
{
    if root.len() <= m {
        assert(p.take(m).take(root.len() as int) =~= p.take(root.len() as int));
    }
}

impl FileExplorerDecorationCache {
    /// Build the cache from `decorations`, for an explorer showing `root`.
    /// Decorations of paths outside the root are dropped; each path keeps
    /// the decoration of highest priority (of equal priority, the later
    /// one).  Each decoration is then bubbled up to every ancestor folder
    /// within the root, where again the highest priority wins.
    pub fn rebuild(decorations: Vec<FileExplorerDecoration>, root: &DecorationPath) -> (c: Self)
        ensures
            c.direct_view() == direct_map(decorations@.map_values(|d: FileExplorerDecoration| d@), root@),
            forall|a: Seq<PartModel>| #[trigger]
                c.bubbled_view().contains_key(a) <==> exists|p: Seq<PartModel>|
                    c.direct_view().contains_key(p) && is_ancestor(a, p) && path_starts_with(a, root@),
            forall|a: Seq<PartModel>| #[trigger]
                c.bubbled_view().contains_key(a) ==> exists|p: Seq<PartModel>|
                    c.direct_view().contains_key(p) && is_ancestor(a, p) && c.bubbled_view()[a] == moved_to(
                        c.direct_view()[p],
                        a,
                    ),
            forall|a: Seq<PartModel>, p: Seq<PartModel>|
                c.bubbled_view().contains_key(a) && #[trigger] c.direct_view().contains_key(p) && #[trigger]
                    is_ancestor(a, p) && path_starts_with(a, root@) ==> c.direct_view()[p].priority
                    <= c.bubbled_view()[a].priority,
    {
        let ghost ds = decorations@.map_values(|d: FileExplorerDecoration| d@);
        let mut direct: Vec<FileExplorerDecoration> = Vec::new();
        proof {
            assert(direct@.map_values(|d: FileExplorerDecoration| d@) =~= Seq::<DecorationModel>::empty());
            assert(ds.take(0) =~= Seq::<DecorationModel>::empty());
        }
        let mut i: usize = 0;
        while i < decorations.len()
            invariant
                ds == decorations@.map_values(|d: FileExplorerDecoration| d@),
                i <= decorations@.len(),
                distinct_paths(direct@.map_values(|d: FileExplorerDecoration| d@)),
                entries_map(direct@.map_values(|d: FileExplorerDecoration| d@)) == direct_map(
                    ds.take(i as int),
                    root@,
                ),
            decreases decorations@.len() - i,
        {
            proof {
                assert(ds.take(i + 1).drop_last() =~= ds.take(i as int));
                assert(ds.take(i + 1).last() == decorations@[i as int]@);
            }
            if decorations[i].path.starts_with(root) {
                insert_best(&mut direct, decorations[i].duplicate());
            }
            i += 1;
        }
        proof {
            assert(ds.take(i as int) =~= ds);
        }
        let ghost dv = direct@.map_values(|d: FileExplorerDecoration| d@);
        let ghost dm = entries_map(dv);
        proof {
            lemma_entries_map(dv);
            lemma_direct_map_keys(ds, root@);
        }
        let mut bubbled: Vec<FileExplorerDecoration> = Vec::new();
        proof {
            assert(bubbled@.map_values(|d: FileExplorerDecoration| d@) =~= Seq::<DecorationModel>::empty());
        }
        let mut k: usize = 0;
        while k < direct.len()
            invariant
                dv == direct@.map_values(|d: FileExplorerDecoration| d@),
                distinct_paths(dv),
                forall|j: int| 0 <= j < dv.len() ==> path_starts_with(#[trigger] dv[j].path, root@),
                k <= dv.len(),
                distinct_paths(bubbled@.map_values(|d: FileExplorerDecoration| d@)),
                bubbled_through(decoration_map(bubbled@), dv, k as int, root@),
            decreases dv.len() - k,
        {
            let d = &direct[k];
            let ghost p = dv[k as int].path;
            let n = d.path.parts.len();
            let mut l: usize = n;
            let ghost mut lo: int = n + 1;
            proof {
                assert(p.take(n as int) =~= p);
            }
            loop
                invariant_except_break
                    l + 1 == lo,
                    l <= n,
                    forall|j: int| l <= j < n ==> !is_anchor(#[trigger] p[j]),
                invariant
                    dv == direct@.map_values(|d: FileExplorerDecoration| d@),
                    d == direct@[k as int],
                    p == dv[k as int].path,
                    p == d.path@,
                    k < dv.len(),
                    n == p.len(),
                    path_starts_with(p, root@),
                    lo <= n + 1,
                    distinct_paths(bubbled@.map_values(|d: FileExplorerDecoration| d@)),
                    forall|a: Seq<PartModel>| #[trigger]
                        decoration_map(bubbled@).contains_key(a) <==> (
                        (exists|i: int| 0 <= i < k && contributes(dv, i, a, root@)) || (lo <= a.len() <= n && a
                            == p.take(a.len() as int))),
                    forall|a: Seq<PartModel>| #[trigger]
                        decoration_map(bubbled@).contains_key(a) ==> (
                        (exists|i: int|
                            0 <= i < k && contributes(dv, i, a, root@) && decoration_map(bubbled@)[a] == moved_to(dv[i], a)) || (lo <= a.len() <= n && a == p.take(a.len() as int)
                            && decoration_map(bubbled@)[a] == moved_to(
                            dv[k as int],
                            a,
                        ))),
                    forall|a: Seq<PartModel>, i: int|
                        0 <= i < k && #[trigger] contributes(dv, i, a, root@) ==> dv[i].priority <= decoration_map(bubbled@)[a].priority,
                    forall|a: Seq<PartModel>|
                        lo <= a.len() <= n && a == p.take(a.len() as int) ==> dv[k as int].priority
                            <= #[trigger] decoration_map(bubbled@)[a].priority,
                    forall|j: int| lo <= j < n ==> !is_anchor(#[trigger] p[j]),
                    lo <= n ==> root@.len() <= lo,
                ensures
                    forall|a: Seq<PartModel>| #[trigger]
                        contributes(dv, k as int, a, root@) ==> lo <= a.len(),
                decreases l,
            {
                let ancestor = d.path.leading(l);
                proof {
                    lemma_leading_starts_with(p, root@, l as int);
                }
                if !ancestor.starts_with(root) {
                    proof {
                        assert forall|a: Seq<PartModel>| #[trigger] contributes(dv, k as int, a, root@) implies lo
                            <= a.len() by {
                            if a.len() < lo {
                                lemma_leading_starts_with(p, root@, a.len() as int);
                            }
                        }
                    }
                    break;
                }
                let ghost om = decoration_map(bubbled@);
                let e = FileExplorerDecoration {
                    path: ancestor,
                    symbol: d.symbol.clone(),
                    color: d.color,
                    priority: d.priority,
                };
                proof {
                    assert(e@ == moved_to(dv[k as int], p.take(l as int)));
                }
                insert_best(&mut bubbled, e);
                proof {
                    lo = l as int;
                    let bm = decoration_map(bubbled@);
                    assert(bm == insert_best_map(om, moved_to(dv[k as int], p.take(l as int))));
                    assert forall|a: Seq<PartModel>| #[trigger] bm.contains_key(a) implies (
                        (exists|i: int| 0 <= i < k && contributes(dv, i, a, root@) && bm[a] == moved_to(dv[i], a))
                            || (lo <= a.len() <= n && a == p.take(a.len() as int) && bm[a] == moved_to(
                            dv[k as int],
                            a,
                        ))) by {
                        if a != p.take(l as int) {
                            assert(om.contains_key(a));
                            assert(bm[a] == om[a]);
                        } else if om.contains_key(a) && bm[a] == om[a] {
                            assert(om.contains_key(a));
                        } else {
                            assert(bm[a] == moved_to(dv[k as int], a));
                            assert(a.len() == l);
                        }
                    }
                }
                if l == 0 || d.path.parts[l - 1].is_anchor() {
                    proof {
                        assert forall|a: Seq<PartModel>| #[trigger] contributes(dv, k as int, a, root@) implies lo
                            <= a.len() by {
                            if a.len() < lo && l > 0 {
                                let j = (l - 1) as int;
                                assert(p[j] == d.path.parts@[j]@);
                                assert(is_anchor(p[j]));
                            }
                        }
                    }
                    break;
                }
                l -= 1;
            }
            proof {
                let bm = decoration_map(bubbled@);
                assert forall|a: Seq<PartModel>| lo <= a.len() <= n && a == p.take(a.len() as int) implies
                    #[trigger] contributes(dv, k as int, a, root@) by {
                    lemma_leading_starts_with(p, root@, a.len() as int);
                }
                assert forall|a: Seq<PartModel>| #[trigger]
                    bm.contains_key(a) <==> exists|i: int| 0 <= i < k + 1 && contributes(dv, i, a, root@) by {
                    if bm.contains_key(a) && !(exists|i: int| 0 <= i < k && contributes(dv, i, a, root@)) {
                        assert(contributes(dv, k as int, a, root@));
                    }
                    if exists|i: int| 0 <= i < k + 1 && contributes(dv, i, a, root@) {
                        let i = choose|i: int| 0 <= i < k + 1 && contributes(dv, i, a, root@);
                        if i == k {
                            assert(lo <= a.len());
                        }
                    }
                }
                assert forall|a: Seq<PartModel>| #[trigger] bm.contains_key(a) implies exists|i: int|
                    0 <= i < k + 1 && contributes(dv, i, a, root@) && bm[a] == moved_to(dv[i], a) by {
                    if !(exists|i: int| 0 <= i < k && contributes(dv, i, a, root@) && bm[a] == moved_to(dv[i], a)) {
                        assert(contributes(dv, k as int, a, root@));
                    }
                }
                assert forall|a: Seq<PartModel>, i: int|
                    0 <= i < k + 1 && #[trigger] contributes(dv, i, a, root@) implies dv[i].priority <= bm[a].priority by {
                    if i == k {
                        assert(lo <= a.len());
                    }
                }
            }
            k += 1;
        }
        let c = FileExplorerDecorationCache { direct, bubbled };
        proof {
            let bm = decoration_map(c.bubbled@);
            assert forall|a: Seq<PartModel>| #[trigger] bm.contains_key(a) <==> exists|q: Seq<PartModel>|
                dm.contains_key(q) && is_ancestor(a, q) && path_starts_with(a, root@) by {
                if bm.contains_key(a) {
                    let i = choose|i: int| 0 <= i < dv.len() && contributes(dv, i, a, root@);
                    assert(dm.contains_key(dv[i].path));
                }
                if exists|q: Seq<PartModel>| dm.contains_key(q) && is_ancestor(a, q) && path_starts_with(a, root@) {
                    let q = choose|q: Seq<PartModel>| dm.contains_key(q) && is_ancestor(a, q) && path_starts_with(a, root@);
                    let i = choose|i: int| 0 <= i < dv.len() && dv[i].path == q;
                    assert(contributes(dv, i, a, root@));
                }
            }
            assert forall|a: Seq<PartModel>| #[trigger] bm.contains_key(a) implies exists|q: Seq<PartModel>|
                dm.contains_key(q) && is_ancestor(a, q) && bm[a] == moved_to(dm[q], a) by {
                let i = choose|i: int| 0 <= i < dv.len() && contributes(dv, i, a, root@) && bm[a] == moved_to(dv[i], a);
                assert(dm[dv[i].path] == dv[i]);
                assert(dm.contains_key(dv[i].path));
            }
            assert forall|a: Seq<PartModel>, q: Seq<PartModel>|
                bm.contains_key(a) && #[trigger] dm.contains_key(q) && #[trigger] is_ancestor(a, q)
                    && path_starts_with(a, root@) implies dm[q].priority <= bm[a].priority by {
                let i = choose|i: int| 0 <= i < dv.len() && dv[i].path == q;
                assert(dm[dv[i].path] == dv[i]);
                assert(contributes(dv, i, a, root@));
            }
        }
        c
    }
}

/// Of the decorations of paths within the root, each path keeps one of its
/// own: one of the highest priority, and of those the last.  Decorations
/// outside the root leave no entry.
pub proof fn law_direct_keeps_best(decs: Seq<DecorationModel>, root: Seq<PartModel>)
    ensures
        forall|p: Seq<PartModel>| #[trigger]
            direct_map(decs, root).contains_key(p) <==> path_starts_with(p, root) && exists|i: int|
                0 <= i < decs.len() && decs[i].path == p,
        forall|i: int|
            0 <= i < decs.len() && path_starts_with(decs[i].path, root) ==> decs[i].priority
                <= #[trigger] direct_map(decs, root)[decs[i].path].priority,
        forall|p: Seq<PartModel>| #[trigger]
            direct_map(decs, root).contains_key(p) ==> exists|j: int|
                0 <= j < decs.len() && decs[j] == direct_map(decs, root)[p] && forall|i: int|
                    j < i < decs.len() && decs[i].path == p ==> decs[i].priority < decs[j].priority,
    decreases decs.len(),
{
    if decs.len() > 0 {
        let t = decs.drop_last();
        let n = decs.len() - 1;
        law_direct_keeps_best(t, root);
        lemma_direct_map_keys(t, root);
        let m = direct_map(t, root);
        let d = decs.last();
        let r = direct_map(decs, root);
        assert forall|p: Seq<PartModel>| #[trigger]
            r.contains_key(p) <==> path_starts_with(p, root) && exists|i: int| 0 <= i < decs.len() && decs[i].path == p by {
            if r.contains_key(p) && p != d.path {
                assert(m.contains_key(p));
                let i = choose|i: int| 0 <= i < t.len() && t[i].path == p;
                assert(decs[i] == t[i]);
            }
            if r.contains_key(p) && p == d.path {
                assert(decs[n].path == p);
                if !path_starts_with(d.path, root) {
                    assert(m.contains_key(p));
                }
            }
            if path_starts_with(p, root) && exists|i: int| 0 <= i < decs.len() && decs[i].path == p {
                let i = choose|i: int| 0 <= i < decs.len() && decs[i].path == p;
                if i < n {
                    assert(t[i] == decs[i]);
                    assert(m.contains_key(p));
                }
            }
        }
        assert forall|i: int|
            0 <= i < decs.len() && path_starts_with(decs[i].path, root) implies decs[i].priority
                <= #[trigger] r[decs[i].path].priority by {
            if i < n {
                assert(t[i] == decs[i]);
                assert(m.contains_key(t[i].path));
            }
        }
        assert forall|p: Seq<PartModel>| #[trigger] r.contains_key(p) implies exists|j: int|
            0 <= j < decs.len() && decs[j] == r[p] && forall|i: int|
                j < i < decs.len() && decs[i].path == p ==> decs[i].priority < decs[j].priority by {
            if p == d.path && path_starts_with(d.path, root) && r[p] == d {
                assert(decs[n] == r[p]);
            } else {
                assert(m.contains_key(p));
                assert(r[p] == m[p]);
                let j = choose|j: int|
                    0 <= j < t.len() && t[j] == m[p] && forall|i: int|
                        j < i < t.len() && t[i].path == p ==> t[i].priority < t[j].priority;
                assert(decs[j] == t[j]);
                assert forall|i: int| j < i < decs.len() && decs[i].path == p implies decs[i].priority
                    < decs[j].priority by {
                    if i < n {
                        assert(t[i] == decs[i]);
                    }
                }
            }
        }
    }
}

} // verus!
