use vstd::prelude::*;

use crate::digest::{bool_field, bytes_field, int_field, opt_int_fields, Digest, FieldName, ValueModel};
use crate::filter::{compile_spec, create_path_filter, opt_view, strings_view, FilterConfigError};
use crate::order::{lemma_path_order_strict_total, path_lt, path_view};
use crate::paths::{copy_component, copy_path, is_rel_path_set, lemma_rel_paths_order_independent, paths_view};
use crate::mode::{compute_mode, compute_mode_spec, is_executable, is_executable_mode, EntryKind, Metadata};

verus! {

/// The model of the fields one pass feeds into a digest.
pub type Fields = Seq<(FieldName, ValueModel)>;

/// The build workspace, as bytes: `/work`.
pub open spec fn work_dir() -> Seq<u8> {
    seq![47u8, 119u8, 111u8, 114u8, 107u8]
}

/// The bytes of the workspace directory's name, `work`.
pub open spec fn work_name() -> Seq<u8> {
    seq![119u8, 111u8, 114u8, 107u8]
}

/// The first component of `p` that is neither empty nor `.` is `work`.
pub open spec fn first_component_is_work(p: Seq<u8>) -> bool
    decreases p.len(),
{
    if p.len() == 0 {
        false
    } else if p[0] == 47u8 {
        first_component_is_work(p.drop_first())
    } else if p[0] == 46u8 && (p.len() == 1 || p[1] == 47u8) {
        first_component_is_work(p.drop_first())
    } else {
        p.len() >= 4 && p.subrange(0, 4) == work_name() && (p.len() == 4 || p[4] == 47u8)
    }
}

/// `p` is an absolute path whose components start with those of `/work`,
/// as `Path::starts_with` compares them: separators repeat freely and `.`
/// components do not count, so `/./work/x` and `//work` lie in the
/// workspace and `/workspace` does not.
pub open spec fn is_in_workspace(p: Seq<u8>) -> bool {
    p.len() > 0 && p[0] == 47u8 && first_component_is_work(p)
}

/// `/work` joined with `p`: an absolute `p` replaces it.
pub open spec fn workspace_join(p: Seq<u8>) -> Seq<u8> {
    if p.len() > 0 && p[0] == 47u8 {
        p
    } else {
        work_dir().push(47u8) + p
    }
}

/// Whether a path lies in the build workspace.
pub fn in_workspace(p: &Vec<u8>) -> (r: bool)
    ensures
        r == is_in_workspace(p@),
{
    if p.len() == 0 || p[0] != 47u8 {
        return false;
    }
    let n = p.len();
    let mut i: usize = 0;
    assert(p@.subrange(0, n as int) =~= p@);
    while i < n && (p[i] == 47u8 || (p[i] == 46u8 && (i + 1 == n || p[i + 1] == 47u8)))
        invariant
            0 <= i <= n,
            n == p@.len(),
            first_component_is_work(p@) == first_component_is_work(p@.subrange(i as int, n as int)),
        decreases n - i,
    {
        assert(p@.subrange(i as int, n as int).drop_first() =~= p@.subrange(i + 1, n as int));
        i = i + 1;
    }
    let ghost rest = p@.subrange(i as int, n as int);
    if n - i < 4 {
        return false;
    }
    let r = p[i] == 119u8 && p[i + 1] == 111u8 && p[i + 2] == 114u8 && p[i + 3] == 107u8 && (n - i == 4 || p[i + 4]
        == 47u8);
    assert(rest.subrange(0, 4) == work_name() <==> (p@[i as int] == 119u8 && p@[i + 1] == 111u8 && p@[i + 2]
        == 114u8 && p@[i + 3] == 107u8)) by {
        if rest.subrange(0, 4) == work_name() {
            assert(rest.subrange(0, 4)[0] == p@[i as int]);
            assert(rest.subrange(0, 4)[1] == p@[i + 1]);
            assert(rest.subrange(0, 4)[2] == p@[i + 2]);
            assert(rest.subrange(0, 4)[3] == p@[i + 3]);
        }
        if p@[i as int] == 119u8 && p@[i + 1] == 111u8 && p@[i + 2] == 114u8 && p@[i + 3] == 107u8 {
            assert(rest.subrange(0, 4) =~= work_name());
        }
    }
    r
}

/// One filesystem node seen by a hash pass.
pub struct Entry {
    /// The path fed as `filename`.
    pub path: Vec<u8>,
    pub meta: Metadata,
    /// File bytes for a regular file, the link target for a symlink, and
    /// ignored for other kinds.
    pub data: Vec<u8>,
}

/// Why a step could not be fingerprinted.
#[derive(Clone, Copy, Debug, PartialEq, Eq, Structural)]
pub enum VersionError {
    /// The hashed path does not exist: there is no previous version.
    New,
    /// The filter rules are contradictory or malformed.
    Config(FilterConfigError),
}

/// Content of a node: file bytes, the link target of a symlink, nothing else.
pub open spec fn content_fields(e: Entry) -> Fields {
    if e.meta.kind == EntryKind::File {
        seq![bytes_field(FieldName::FileContent, e.data@)]
    } else if e.meta.kind == EntryKind::Symlink {
        seq![bytes_field(FieldName::Symlink, e.data@)]
    } else {
        Seq::empty()
    }
}

fn feed_content(digest: &mut Digest, e: &Entry)
    ensures
        final(digest)@ == old(digest)@ + content_fields(*e),
{
    if e.meta.kind == EntryKind::File {
        digest.file(&e.data);
    } else if e.meta.kind == EntryKind::Symlink {
        digest.field_bytes(FieldName::Symlink, &e.data);
    }
    assert(digest@ =~= old(digest)@ + content_fields(*e));
}

/// What `Depends` feeds for one node: its path, for a regular file whether
/// it is executable (not the whole mode, which follows the host umask), then
/// its content.
pub open spec fn depends_entry_fields(e: Entry) -> Fields {
    seq![bytes_field(FieldName::Filename, e.path@)] + (if e.meta.kind == EntryKind::File {
        seq![bool_field(FieldName::IsExecutable, is_executable_mode(e.meta.mode))]
    } else {
        Seq::empty()
    }) + content_fields(e)
}

pub open spec fn depends_entries_fields(es: Seq<Entry>) -> Fields
    decreases es.len(),
{
    if es.len() == 0 {
        Seq::empty()
    } else {
        depends_entries_fields(es.drop_last()) + depends_entry_fields(es.last())
    }
}

/// What `Copy` feeds for one node: its path, the mode it will get (none for
/// a symlink), the owner it will get, then its content.
pub open spec fn copy_entry_fields(c: Copy, e: Entry) -> Fields {
    seq![bytes_field(FieldName::Filename, e.path@)] + opt_int_fields(
        FieldName::Mode,
        compute_mode_spec(e.meta, c.preserve_permissions, c.umask),
    ) + seq![
        int_field(FieldName::Uid, unwrap_or(c.owner_uid, e.meta.uid)),
        int_field(FieldName::Gid, unwrap_or(c.owner_gid, e.meta.gid)),
    ] + content_fields(e)
}

pub open spec fn copy_entries_fields(c: Copy, es: Seq<Entry>) -> Fields
    decreases es.len(),
{
    if es.len() == 0 {
        Seq::empty()
    } else {
        copy_entries_fields(c, es.drop_last()) + copy_entry_fields(c, es.last())
    }
}

pub open spec fn unwrap_or(o: Option<u32>, d: u32) -> u32 {
    match o {
        Some(v) => v,
        None => d,
    }
}

/// The nodes a tree pass covers: the root, and when the root is a directory
/// the listed nodes below it, in the order given.
pub open spec fn tree_entries(root: Entry, entries: Seq<Entry>) -> Seq<Entry> {
    if root.meta.kind == EntryKind::Dir {
        seq![root] + entries
    } else {
        seq![root]
    }
}

/// Declares that a path of the workspace affects the fingerprint of the
/// build; building it changes nothing.
pub struct Depends {
    pub path: Vec<u8>,
    pub ignore_regex: Option<String>,
    pub include_regex: Option<String>,
    pub rules: Vec<String>,
    pub no_default_rules: Option<bool>,
}

/// Replicates `source` into the image at `path`, with owner and permission
/// overrides.
pub struct Copy {
    pub source: Vec<u8>,
    pub path: Vec<u8>,
    pub owner_uid: Option<u32>,
    pub owner_gid: Option<u32>,
    pub umask: u32,
    pub preserve_permissions: bool,
    pub ignore_regex: Option<String>,
    pub include_regex: Option<String>,
    pub rules: Vec<String>,
    pub no_default_rules: Option<bool>,
}

impl Depends {
    pub open spec fn filter_spec(self) -> Result<crate::filter::FilterModel, FilterConfigError> {
        compile_spec(strings_view(self.rules@), self.no_default_rules, opt_view(self.ignore_regex), opt_view(self.include_regex))
    }

    /// The fingerprint fields for the tree rooted at `root` (`None` when the
    /// path does not exist) with the filtered nodes below it in `entries`.
    pub open spec fn hash_spec(self, root: Option<Entry>, entries: Seq<Entry>) -> Result<Fields, VersionError> {
        match self.filter_spec() {
            Err(e) => Err(VersionError::Config(e)),
            Ok(_) => match root {
                None => Err(VersionError::New),
                Some(r) => Ok(depends_entries_fields(tree_entries(r, entries))),
            },
        }
    }

    /// The step's name.
    pub fn name(&self) -> (r: &'static str)
        ensures
            r@ == "Depends"@,
    {
        "Depends"
    }

    /// The path that is hashed: the declared path under the workspace.
    pub fn hash_root(&self) -> (r: Vec<u8>)
        ensures
            r@ == workspace_join(self.path@),
    {
        if self.path.len() > 0 && self.path[0] == 47u8 {
            return copy_component(&self.path);
        }
        let mut r: Vec<u8> = vec![47u8, 119u8, 111u8, 114u8, 107u8, 47u8];
        let mut i: usize = 0;
        while i < self.path.len()
            invariant
                0 <= i <= self.path.len(),
                r@ == work_dir().push(47u8) + self.path@.subrange(0, i as int),
            decreases self.path.len() - i,
        {
            r.push(self.path[i]);
            assert(self.path@.subrange(0, i + 1) =~= self.path@.subrange(0, i as int).push(self.path@[i as int]));
            assert(r@ =~= work_dir().push(47u8) + self.path@.subrange(0, i + 1));
            i = i + 1;
        }
        assert(self.path@.subrange(0, i as int) =~= self.path@);
        r
    }

    fn feed_entry(digest: &mut Digest, e: &Entry)
        ensures
            final(digest)@ == old(digest)@ + depends_entry_fields(*e),
    {
        digest.field_bytes(FieldName::Filename, &e.path);
        if e.meta.kind == EntryKind::File {
            digest.field_bool(FieldName::IsExecutable, is_executable(e.meta.mode));
        }
        feed_content(digest, e);
        assert(digest@ =~= old(digest)@ + depends_entry_fields(*e));
    }

    /// Feeds the fingerprint of the declared path into `digest`: the rules
    /// must compile, the root must exist (else there is no previous version),
    /// and then the root and, for a directory, each node of `entries` is fed
    /// by `depends_entry_fields`.
    pub fn hash(&self, digest: &mut Digest, root: &Option<Entry>, entries: &Vec<Entry>) -> (r: Result<(), VersionError>)
        ensures
            match self.hash_spec(*root, entries@) {
                Ok(fs) => r is Ok && final(digest)@ == old(digest)@ + fs,
                Err(e) => r == Err::<(), VersionError>(e) && final(digest)@ == old(digest)@,
            },
    {
        match create_path_filter(&self.rules, self.no_default_rules, &self.ignore_regex, &self.include_regex) {
            Err(e) => return Err(VersionError::Config(e)),
            Ok(_) => {},
        }
        let root = match root {
            None => return Err(VersionError::New),
            Some(r) => r,
        };
        Self::feed_entry(digest, root);
        proof {
            assert(seq![*root].drop_last() =~= Seq::<Entry>::empty());
            reveal_with_fuel(depends_entries_fields, 2);
            assert(depends_entries_fields(seq![*root]) =~= depends_entry_fields(*root));
        }
        if root.meta.kind == EntryKind::Dir {
            let ghost start = old(digest)@;
            let ghost all = seq![*root] + entries@;
            assert(all.subrange(0, 1) =~= seq![*root]);
            let mut i: usize = 0;
            while i < entries.len()
                invariant
                    0 <= i <= entries.len(),
                    all == seq![*root] + entries@,
                    digest@ == start + depends_entries_fields(all.subrange(0, i + 1)),
                decreases entries.len() - i,
            {
                Self::feed_entry(digest, &entries[i]);
                assert(all.subrange(0, i + 2).drop_last() =~= all.subrange(0, i + 1));
                assert(all.subrange(0, i + 2).last() == entries@[i as int]);
                assert(digest@ =~= start + depends_entries_fields(all.subrange(0, i + 2)));
                i = i + 1;
            }
            assert(all.subrange(0, i + 1) =~= all);
        } else {
            assert(digest@ =~= old(digest)@ + depends_entries_fields(seq![*root]));
        }
        Ok(())
    }

    /// `Depends` builds nothing.
    pub fn build(&self, should_build: bool) -> (r: Result<(), StepError>)
        ensures
            r is Ok,
    {
        Ok(())
    }

    /// No step has to run before this one.
    pub fn is_dependent_on(&self) -> (r: Option<&'static str>)
        ensures
            r is None,
    {
        None
    }
}

/// Why a build step failed before touching the filesystem.
#[derive(Clone, Copy, Debug, PartialEq, Eq, Structural)]
pub enum StepError {
    Config(FilterConfigError),
}

/// The step parameters `Copy` feeds for a source outside the workspace.
pub open spec fn copy_params_fields(c: Copy) -> Fields {
    seq![
        bytes_field(FieldName::Source, c.source@),
        bytes_field(FieldName::Path, c.path@),
        bool_field(FieldName::PreservePermissions, c.preserve_permissions),
    ] + (if !c.preserve_permissions {
        opt_int_fields(FieldName::OwnerUid, c.owner_uid) + opt_int_fields(FieldName::OwnerGid, c.owner_gid) + seq![
            int_field(FieldName::Umask, c.umask),
        ]
    } else {
        Seq::empty()
    })
}

/// Copy order of one walked path: each of its ancestors and then itself,
/// shallowest first, skipping those already in `done`.
pub open spec fn visit_spec(done: Seq<Seq<Seq<u8>>>, p: Seq<Seq<u8>>, k: int) -> Seq<Seq<Seq<u8>>>
    decreases k,
{
    if k <= 0 {
        done
    } else {
        let d = visit_spec(done, p, k - 1);
        if d.contains(p.subrange(0, k)) {
            d
        } else {
            d.push(p.subrange(0, k))
        }
    }
}

/// Copy order of a directory source: the source itself (the empty relative
/// path), then the walked paths in walk order, each preceded by those of its
/// ancestors not yet copied.
pub open spec fn plan_spec(walked: Seq<Seq<Seq<u8>>>, n: int) -> Seq<Seq<Seq<u8>>>
    decreases n,
{
    if n <= 0 {
        seq![Seq::<Seq<u8>>::empty()]
    } else {
        let d = plan_spec(walked, n - 1);
        visit_spec(d, walked[n - 1], walked[n - 1].len() as int)
    }
}

/// The relative paths that a build replicates, in order.
pub open spec fn build_plan_spec(build: bool, source_is_dir: bool, walked: Seq<Seq<Seq<u8>>>) -> Seq<Seq<Seq<u8>>> {
    if !build {
        Seq::empty()
    } else if !source_is_dir {
        seq![Seq::<Seq<u8>>::empty()]
    } else {
        plan_spec(walked, walked.len() as int)
    }
}

fn path_eq(a: &Vec<Vec<u8>>, b: &Vec<Vec<u8>>) -> (r: bool)
    ensures
        r == (path_view(*a) == path_view(*b)),
{
    proof {
        lemma_path_order_strict_total();
    }
    !path_lt(a, b) && !path_lt(b, a)
}

fn contains_path(v: &Vec<Vec<Vec<u8>>>, p: &Vec<Vec<u8>>) -> (r: bool)
    ensures
        r == paths_view(v@).contains(path_view(*p)),
{
    let mut i: usize = 0;
    while i < v.len()
        invariant
            0 <= i <= v.len(),
            forall|j: int| 0 <= j < i ==> paths_view(v@)[j] != path_view(*p),
        decreases v.len() - i,
    {
        if path_eq(&v[i], p) {
            assert(paths_view(v@)[i as int] == path_view(*p));
            return true;
        }
        i = i + 1;
    }
    false
}

impl Copy {
    pub open spec fn filter_spec(self) -> Result<crate::filter::FilterModel, FilterConfigError> {
        compile_spec(strings_view(self.rules@), self.no_default_rules, opt_view(self.ignore_regex), opt_view(self.include_regex))
    }

    /// The fingerprint fields. A source in the workspace is hashed as a tree
    /// (`root` is `None` when it does not exist), followed by the
    /// destination; any other source is the output of earlier steps, and only
    /// the parameters are fed, whatever `root` and `entries` hold.
    pub open spec fn hash_spec(self, root: Option<Entry>, entries: Seq<Entry>) -> Result<Fields, VersionError> {
        if is_in_workspace(self.source@) {
            match self.filter_spec() {
                Err(e) => Err(VersionError::Config(e)),
                Ok(_) => match root {
                    None => Err(VersionError::New),
                    Some(r) => Ok(
                        copy_entries_fields(self, tree_entries(r, entries)).push(bytes_field(FieldName::Path, self.path@)),
                    ),
                },
            }
        } else {
            Ok(copy_params_fields(self))
        }
    }

    /// The step's name.
    pub fn name(&self) -> (r: &'static str)
        ensures
            r@ == "Copy"@,
    {
        "Copy"
    }

    /// The mode a replicated node gets under this step's settings.
    pub fn calc_mode(&self, meta: &Metadata) -> (r: Option<u32>)
        ensures
            r == compute_mode_spec(*meta, self.preserve_permissions, self.umask),
    {
        compute_mode(meta, self.preserve_permissions, self.umask)
    }

    fn feed_entry(&self, digest: &mut Digest, e: &Entry)
        ensures
            final(digest)@ == old(digest)@ + copy_entry_fields(*self, *e),
    {
        digest.field_bytes(FieldName::Filename, &e.path);
        digest.opt_field_int(FieldName::Mode, self.calc_mode(&e.meta));
        let uid = match self.owner_uid {
            Some(u) => u,
            None => e.meta.uid,
        };
        let gid = match self.owner_gid {
            Some(g) => g,
            None => e.meta.gid,
        };
        digest.field_int(FieldName::Uid, uid);
        digest.field_int(FieldName::Gid, gid);
        feed_content(digest, e);
        assert(digest@ =~= old(digest)@ + copy_entry_fields(*self, *e));
    }

    /// Feeds the fingerprint of the step into `digest`, as `hash_spec` says.
    pub fn hash(&self, digest: &mut Digest, root: &Option<Entry>, entries: &Vec<Entry>) -> (r: Result<(), VersionError>)
        ensures
            match self.hash_spec(*root, entries@) {
                Ok(fs) => r is Ok && final(digest)@ == old(digest)@ + fs,
                Err(e) => r == Err::<(), VersionError>(e) && final(digest)@ == old(digest)@,
            },
    {
        if !in_workspace(&self.source) {
            digest.field_bytes(FieldName::Source, &self.source);
            digest.field_bytes(FieldName::Path, &self.path);
            digest.field_bool(FieldName::PreservePermissions, self.preserve_permissions);
            if !self.preserve_permissions {
                digest.opt_field_int(FieldName::OwnerUid, self.owner_uid);
                digest.opt_field_int(FieldName::OwnerGid, self.owner_gid);
                digest.field_int(FieldName::Umask, self.umask);
            }
            assert(digest@ =~= old(digest)@ + copy_params_fields(*self));
            return Ok(());
        }
        match create_path_filter(&self.rules, self.no_default_rules, &self.ignore_regex, &self.include_regex) {
            Err(e) => return Err(VersionError::Config(e)),
            Ok(_) => {},
        }
        let root = match root {
            None => return Err(VersionError::New),
            Some(r) => r,
        };
        self.feed_entry(digest, root);
        proof {
            assert(seq![*root].drop_last() =~= Seq::<Entry>::empty());
            reveal_with_fuel(copy_entries_fields, 2);
            assert(copy_entries_fields(*self, seq![*root]) =~= copy_entry_fields(*self, *root));
        }
        let ghost start = old(digest)@;
        if root.meta.kind == EntryKind::Dir {
            let ghost all = seq![*root] + entries@;
            assert(all.subrange(0, 1) =~= seq![*root]);
            let mut i: usize = 0;
            while i < entries.len()
                invariant
                    0 <= i <= entries.len(),
                    all == seq![*root] + entries@,
                    digest@ == start + copy_entries_fields(*self, all.subrange(0, i + 1)),
                decreases entries.len() - i,
            {
                self.feed_entry(digest, &entries[i]);
                assert(all.subrange(0, i + 2).drop_last() =~= all.subrange(0, i + 1));
                assert(all.subrange(0, i + 2).last() == entries@[i as int]);
                assert(digest@ =~= start + copy_entries_fields(*self, all.subrange(0, i + 2)));
                i = i + 1;
            }
            assert(all.subrange(0, i + 1) =~= all);
        } else {
            assert(digest@ =~= start + copy_entries_fields(*self, seq![*root]));
        }
        digest.field_bytes(FieldName::Path, &self.path);
        assert(digest@ =~= start + copy_entries_fields(*self, tree_entries(*root, entries@)).push(
            bytes_field(FieldName::Path, self.path@),
        ));
        Ok(())
    }

    /// What a build replicates, as relative paths in order, or why it fails.
    pub open spec fn build_spec(self, build: bool, source_is_dir: bool, walked: Seq<Seq<Seq<u8>>>) -> Result<
        Seq<Seq<Seq<u8>>>,
        StepError,
    > {
        if build && source_is_dir {
            match self.filter_spec() {
                Err(e) => Err(StepError::Config(e)),
                Ok(_) => Ok(build_plan_spec(build, source_is_dir, walked)),
            }
        } else {
            Ok(build_plan_spec(build, source_is_dir, walked))
        }
    }

    /// Decides what a build replicates, given whether it runs at all, whether
    /// the source is a directory, and the paths that the filtered walk of the
    /// source yielded: the relative paths to replicate, in order (the empty
    /// path is the source itself). A build that does not run replicates
    /// nothing and succeeds; a file or symlink source is replicated alone; a
    /// directory source needs rules that compile, and then replicates itself
    /// and, for each walked path, its ancestors and itself from the
    /// shallowest, each path once.
    pub fn build(&self, build: bool, source_is_dir: bool, walked: &Vec<Vec<Vec<u8>>>) -> (r: Result<
        Vec<Vec<Vec<u8>>>,
        StepError,
    >)
        ensures
            match self.build_spec(build, source_is_dir, paths_view(walked@)) {
                Ok(plan) => r is Ok && paths_view(r->Ok_0@) == plan,
                Err(e) => r == Err::<Vec<Vec<Vec<u8>>>, StepError>(e),
            },
    {
        if build && source_is_dir {
            match create_path_filter(&self.rules, self.no_default_rules, &self.ignore_regex, &self.include_regex) {
                Err(e) => return Err(StepError::Config(e)),
                Ok(_) => {},
            }
        }
        Ok(Self::replication_order(build, source_is_dir, walked))
    }

    fn replication_order(build: bool, source_is_dir: bool, walked: &Vec<Vec<Vec<u8>>>) -> (r: Vec<Vec<Vec<u8>>>)
        ensures
            paths_view(r@) == build_plan_spec(build, source_is_dir, paths_view(walked@)),
    {
        let mut r: Vec<Vec<Vec<u8>>> = Vec::new();
        if !build {
            assert(paths_view(r@) =~= Seq::<Seq<Seq<u8>>>::empty());
            return r;
        }
        r.push(Vec::new());
        assert(paths_view(r@) =~= seq![Seq::<Seq<u8>>::empty()]) by {
            assert(path_view(r@[0]) =~= Seq::<Seq<u8>>::empty());
        }
        if !source_is_dir {
            return r;
        }
        let ghost wv = paths_view(walked@);
        let mut mi: usize = 0;
        while mi < walked.len()
            invariant
                0 <= mi <= walked.len(),
                wv == paths_view(walked@),
                paths_view(r@) == plan_spec(wv, mi as int),
            decreases walked.len() - mi,
        {
            let w = &walked[mi];
            assert(wv[mi as int] == path_view(*w));
            let ghost d = paths_view(r@);
            let mut prefix: Vec<Vec<u8>> = Vec::new();
            let mut k: usize = 0;
            while k < w.len()
                invariant
                    0 <= mi < walked.len(),
                    w == walked@[mi as int],
                    wv[mi as int] == path_view(*w),
                    0 <= k <= w.len(),
                    prefix@.len() == k,
                    forall|j: int| 0 <= j < k ==> (#[trigger] prefix@[j])@ == w@[j]@,
                    paths_view(r@) == visit_spec(d, wv[mi as int], k as int),
                decreases w.len() - k,
            {
                prefix.push(copy_component(&w[k]));
                let ghost pv = wv[mi as int].subrange(0, k + 1);
                assert(path_view(prefix) =~= pv);
                if !contains_path(&r, &prefix) {
                    let ghost before = r@;
                    r.push(copy_path(&prefix));
                    assert(paths_view(r@) =~= paths_view(before).push(pv));
                }
                k = k + 1;
            }
            assert(wv[mi as int].len() == w.len());
            mi = mi + 1;
        }
        r
    }

    /// No step has to run before this one.
    pub fn is_dependent_on(&self) -> (r: Option<&'static str>)
        ensures
            r is None,
    {
        None
    }
}

/// `Depends` hashes only the executable bit of a regular file: two files
/// with the same path and content give the same fields exactly when both or
/// neither are executable, whatever the other mode bits and owners are.
pub proof fn lemma_depends_exe_only(e1: Entry, e2: Entry)
    requires
        e1.path@ == e2.path@,
        e1.data@ == e2.data@,
        e1.meta.kind == EntryKind::File,
        e2.meta.kind == EntryKind::File,
    ensures
        (depends_entry_fields(e1) == depends_entry_fields(e2)) <==> (is_executable_mode(e1.meta.mode)
            == is_executable_mode(e2.meta.mode)),
{
    if depends_entry_fields(e1) == depends_entry_fields(e2) {
        assert(depends_entry_fields(e1)[1] == depends_entry_fields(e2)[1]);
    }
    if is_executable_mode(e1.meta.mode) == is_executable_mode(e2.meta.mode) {
        assert(depends_entry_fields(e1) =~= depends_entry_fields(e2));
    }
}

/// A missing path gives the no-previous-version signal, never another
/// error, once the rules compile.
pub proof fn lemma_missing_path_is_new(d: Depends, c: Copy, entries: Seq<Entry>)
    ensures
        d.filter_spec() is Ok ==> d.hash_spec(None, entries) == Err::<Fields, VersionError>(VersionError::New),
        is_in_workspace(c.source@) && c.filter_spec() is Ok ==> c.hash_spec(None, entries) == Err::<
            Fields,
            VersionError,
        >(VersionError::New),
{
}

/// A `Copy` whose source lies outside the workspace is fingerprinted by its
/// parameters alone: what is on disk under the source changes nothing, and
/// hashing always succeeds.
pub proof fn lemma_copy_external_ignores_tree(
    c: Copy,
    root1: Option<Entry>,
    entries1: Seq<Entry>,
    root2: Option<Entry>,
    entries2: Seq<Entry>,
)
    requires
        !is_in_workspace(c.source@),
    ensures
        c.hash_spec(root1, entries1) == c.hash_spec(root2, entries2),
        c.hash_spec(root1, entries1) == Ok::<Fields, VersionError>(copy_params_fields(c)),
{
}

/// A `Copy` build that is not to run succeeds and replicates nothing,
/// whatever the source and its rules are.
pub proof fn lemma_no_build_no_writes(c: Copy, source_is_dir: bool, walked: Seq<Seq<Seq<u8>>>)
    ensures
        c.build_spec(false, source_is_dir, walked) == Ok::<Seq<Seq<Seq<u8>>>, StepError>(
            Seq::<Seq<Seq<u8>>>::empty(),
        ),
{
}

/// Hashing a fixed tree gives the same fields whatever order the walk
/// yielded its paths in: `node` gives the node at each relative path, and
/// each pass lists the nodes of its own enumeration.
pub proof fn lemma_hash_independent_of_walk_order(
    d: Depends,
    c: Copy,
    root: Option<Entry>,
    walk1: Seq<Seq<Seq<u8>>>,
    walk2: Seq<Seq<Seq<u8>>>,
    rel1: Seq<Seq<Seq<u8>>>,
    rel2: Seq<Seq<Seq<u8>>>,
    node: spec_fn(Seq<Seq<u8>>) -> Entry,
)
    requires
        walk1.to_set() == walk2.to_set(),
        is_rel_path_set(walk1, rel1),
        is_rel_path_set(walk2, rel2),
    ensures
        d.hash_spec(root, rel1.map_values(node)) == d.hash_spec(root, rel2.map_values(node)),
        c.hash_spec(root, rel1.map_values(node)) == c.hash_spec(root, rel2.map_values(node)),
{
    lemma_rel_paths_order_independent(walk1, walk2, rel1, rel2);
}

/// A build step of either kind.
pub enum BuildStep {
    Depends(Depends),
    Copy(Copy),
}

impl BuildStep {
    pub open spec fn hash_spec(self, root: Option<Entry>, entries: Seq<Entry>) -> Result<Fields, VersionError> {
        match self {
            BuildStep::Depends(d) => d.hash_spec(root, entries),
            BuildStep::Copy(c) => c.hash_spec(root, entries),
        }
    }

    /// The step's name.
    pub fn name(&self) -> (r: &'static str)
        ensures
            r@ == (match self {
                BuildStep::Depends(_) => "Depends"@,
                BuildStep::Copy(_) => "Copy"@,
            }),
    {
        match self {
            BuildStep::Depends(d) => d.name(),
            BuildStep::Copy(c) => c.name(),
        }
    }

    /// Feeds the step's fingerprint into `digest`.
    pub fn hash(&self, digest: &mut Digest, root: &Option<Entry>, entries: &Vec<Entry>) -> (r: Result<(), VersionError>)
        ensures
            match self.hash_spec(*root, entries@) {
                Ok(fs) => r is Ok && final(digest)@ == old(digest)@ + fs,
                Err(e) => r == Err::<(), VersionError>(e) && final(digest)@ == old(digest)@,
            },
    {
        match self {
            BuildStep::Depends(d) => d.hash(digest, root, entries),
            BuildStep::Copy(c) => c.hash(digest, root, entries),
        }
    }

    /// Neither kind of step has to follow another.
    pub fn is_dependent_on(&self) -> (r: Option<&'static str>)
        ensures
            r is None,
    {
        None
    }
}

} // verus!

