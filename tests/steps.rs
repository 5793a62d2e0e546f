use vagga_steps::digest::{Digest, Field, FieldName, FieldValue};
use vagga_steps::filter::{create_path_filter, default_ignore_rules, FilterConfigError, FilterSpec, DEFAULT_IGNORE_REGEX};
use vagga_steps::mode::{compute_mode, has_exec_bit, is_executable, EntryKind, Metadata};
use vagga_steps::paths::get_sorted_rel_paths;
use vagga_steps::steps::{in_workspace, BuildStep, Depends, Entry, StepError, VersionError};

fn rel(s: &str) -> Vec<Vec<u8>> {
    s.split('/').map(|c| c.as_bytes().to_vec()).collect()
}

fn meta(kind: EntryKind, mode: u32) -> Metadata {
    Metadata { kind, mode, uid: 1000, gid: 100 }
}

fn entry(path: &str, kind: EntryKind, mode: u32, data: &[u8]) -> Entry {
    Entry { path: path.as_bytes().to_vec(), meta: meta(kind, mode), data: data.to_vec() }
}

fn depends(path: &str) -> Depends {
    Depends {
        path: path.as_bytes().to_vec(),
        ignore_regex: None,
        include_regex: None,
        rules: vec![],
        no_default_rules: None,
    }
}

fn copy_step(source: &str) -> vagga_steps::steps::Copy {
    vagga_steps::steps::Copy {
        source: source.as_bytes().to_vec(),
        path: b"/dest".to_vec(),
        owner_uid: None,
        owner_gid: None,
        umask: 0o002,
        preserve_permissions: false,
        ignore_regex: None,
        include_regex: None,
        rules: vec![],
        no_default_rules: None,
    }
}

fn field(name: FieldName, value: FieldValue) -> Field {
    Field { name, value }
}

fn bytes(name: FieldName, s: &[u8]) -> Field {
    field(name, FieldValue::Bytes(s.to_vec()))
}

#[test]
fn mode_plain_file_umask_022() {
    assert_eq!(compute_mode(&meta(EntryKind::File, 0o600), false, 0o022), Some(0o644));
}

#[test]
fn mode_executable_file_umask_022() {
    assert_eq!(compute_mode(&meta(EntryKind::File, 0o700), false, 0o022), Some(0o755));
}

#[test]
fn mode_directory_default_umask() {
    assert_eq!(compute_mode(&meta(EntryKind::Dir, 0o700), false, 0o002), Some(0o775));
}

#[test]
fn mode_symlink_is_none() {
    assert_eq!(compute_mode(&meta(EntryKind::Symlink, 0o777), false, 0o022), None);
    assert_eq!(compute_mode(&meta(EntryKind::Symlink, 0o777), true, 0o022), None);
}

#[test]
fn mode_preserved_regardless_of_umask() {
    assert_eq!(compute_mode(&meta(EntryKind::File, 0o4751), true, 0o022), Some(0o4751));
    assert_eq!(compute_mode(&meta(EntryKind::File, 0o4751), true, 0o777), Some(0o4751));
}

#[test]
fn depends_executable_flag_is_owner_bit() {
    assert!(is_executable(0o100));
    assert!(!is_executable(0o011));
}

#[test]
fn mode_any_execute_bit_counts() {
    assert!(has_exec_bit(0o010));
    assert!(has_exec_bit(0o001));
    assert!(!has_exec_bit(0o666));
    assert_eq!(compute_mode(&meta(EntryKind::File, 0o010), false, 0), Some(0o777));
    assert_eq!(compute_mode(&meta(EntryKind::File, 0o641), false, 0o022), Some(0o755));
    assert_eq!(compute_mode(&meta(EntryKind::File, 0o610), false, 0o002), Some(0o775));
}

#[test]
fn filter_mixed_forms_rejected() {
    let r = create_path_filter(&vec!["!*.tmp".to_string()], None, &Some("x".to_string()), &None);
    assert_eq!(r.unwrap_err(), FilterConfigError::Ambiguous);
    let r = create_path_filter(&vec![], Some(false), &None, &Some("y".to_string()));
    assert_eq!(r.unwrap_err(), FilterConfigError::Ambiguous);
}

#[test]
fn filter_relative_include_rejected() {
    let r = create_path_filter(&vec!["!*.tmp".to_string(), "foo/bar".to_string()], None, &None, &None);
    assert_eq!(r.unwrap_err(), FilterConfigError::RelativeInclude);
    let r = create_path_filter(&vec!["".to_string()], None, &None, &None);
    assert_eq!(r.unwrap_err(), FilterConfigError::RelativeInclude);
    assert_eq!(FilterConfigError::RelativeInclude.message(), "Relative paths are allowed only for excluding rules");
}

#[test]
fn filter_glob_with_defaults() {
    let r = create_path_filter(&vec!["/src".to_string(), "!foo".to_string()], None, &None, &None);
    match r.unwrap() {
        FilterSpec::Glob { rules } => {
            let mut expected = default_ignore_rules();
            assert_eq!(expected.len(), 9);
            assert_eq!(expected[0], "!.git/");
            expected.push("/src".to_string());
            expected.push("!foo".to_string());
            assert_eq!(rules, expected);
        },
        other => panic!("unexpected {:?}", other),
    }
}

#[test]
fn filter_glob_without_defaults() {
    let r = create_path_filter(&vec!["/src".to_string()], Some(true), &None, &None);
    match r.unwrap() {
        FilterSpec::Glob { rules } => assert_eq!(rules, vec!["/src".to_string()]),
        other => panic!("unexpected {:?}", other),
    }
}

#[test]
fn filter_regex_defaults() {
    match create_path_filter(&vec![], None, &None, &None).unwrap() {
        FilterSpec::Regex { ignore, keep } => {
            assert_eq!(ignore, DEFAULT_IGNORE_REGEX);
            assert_eq!(keep, None);
        },
        other => panic!("unexpected {:?}", other),
    }
    match create_path_filter(&vec![], None, &Some("a".to_string()), &Some("b".to_string())).unwrap() {
        FilterSpec::Regex { ignore, keep } => {
            assert_eq!(ignore, "a");
            assert_eq!(keep, Some("b".to_string()));
        },
        other => panic!("unexpected {:?}", other),
    }
}

#[test]
fn rel_paths_include_ancestors() {
    let r = get_sorted_rel_paths(&vec![rel("src/deep/file.txt")]);
    assert_eq!(r, vec![rel("src"), rel("src/deep"), rel("src/deep/file.txt")]);
}

#[test]
fn rel_paths_sorted_by_component() {
    let r = get_sorted_rel_paths(&vec![rel("a.c"), rel("a/b"), rel("a"), rel("a/b")]);
    assert_eq!(r, vec![rel("a"), rel("a/b"), rel("a.c")]);
}

#[test]
fn rel_paths_independent_of_walk_order() {
    let a = get_sorted_rel_paths(&vec![rel("x/y"), rel("b"), rel("x/a/z")]);
    let b = get_sorted_rel_paths(&vec![rel("x/a/z"), rel("x/y"), rel("b")]);
    assert_eq!(a, b);
    assert_eq!(a, vec![rel("b"), rel("x"), rel("x/a"), rel("x/a/z"), rel("x/y")]);
}

#[test]
fn rel_paths_empty_walk() {
    assert!(get_sorted_rel_paths(&vec![]).is_empty());
}

#[test]
fn depends_missing_path_is_new() {
    let mut d = Digest::new();
    let r = depends("data").hash(&mut d, &None, &vec![]);
    assert_eq!(r, Err(VersionError::New));
    assert_eq!(d.len(), 0);
}

#[test]
fn depends_config_error_before_stat() {
    let mut step = depends("data");
    step.rules = vec!["rel".to_string()];
    let mut d = Digest::new();
    let r = step.hash(&mut d, &None, &vec![]);
    assert_eq!(r, Err(VersionError::Config(FilterConfigError::RelativeInclude)));
}

#[test]
fn depends_hash_root() {
    assert_eq!(depends("data").hash_root(), b"/work/data".to_vec());
    assert_eq!(depends("/abs").hash_root(), b"/abs".to_vec());
    assert_eq!(depends("data").name(), "Depends");
    assert_eq!(depends("data").is_dependent_on(), None);
    assert!(depends("data").build(true).is_ok());
}

#[test]
fn depends_fields_of_tree() {
    let root = entry("/work/d", EntryKind::Dir, 0o755, b"");
    let entries = vec![
        entry("/work/d/f", EntryKind::File, 0o644, b"hi"),
        entry("/work/d/l", EntryKind::Symlink, 0o777, b"f"),
    ];
    let mut d = Digest::new();
    depends("d").hash(&mut d, &Some(root), &entries).unwrap();
    let expected = vec![
        bytes(FieldName::Filename, b"/work/d"),
        bytes(FieldName::Filename, b"/work/d/f"),
        field(FieldName::IsExecutable, FieldValue::Bool(false)),
        bytes(FieldName::FileContent, b"hi"),
        bytes(FieldName::Filename, b"/work/d/l"),
        bytes(FieldName::Symlink, b"f"),
    ];
    assert_eq!(d.fields(), &expected);
}

#[test]
fn depends_file_root_ignores_entries() {
    let root = entry("/work/f", EntryKind::File, 0o755, b"x");
    let mut d = Digest::new();
    depends("f").hash(&mut d, &Some(root), &vec![entry("/work/f/g", EntryKind::File, 0, b"")]).unwrap();
    assert_eq!(d.len(), 3);
    assert_eq!(d.fields()[1], field(FieldName::IsExecutable, FieldValue::Bool(true)));
}

#[test]
fn depends_hash_only_executable_bit() {
    let hash_of = |mode: u32| {
        let mut d = Digest::new();
        depends("f").hash(&mut d, &Some(entry("/work/f", EntryKind::File, mode, b"same")), &vec![]).unwrap();
        d
    };
    assert_eq!(hash_of(0o644), hash_of(0o664));
    assert_eq!(hash_of(0o755), hash_of(0o700));
    assert_ne!(hash_of(0o644), hash_of(0o744));
}

#[test]
fn depends_hash_repeatable() {
    let run = || {
        let mut d = Digest::new();
        let walked = get_sorted_rel_paths(&vec![rel("b"), rel("a")]);
        let entries: Vec<Entry> = walked
            .iter()
            .map(|p| entry(&format!("/work/d/{}", String::from_utf8(p.join(&b'/')).unwrap()), EntryKind::File, 0o644, b"z"))
            .collect();
        depends("d").hash(&mut d, &Some(entry("/work/d", EntryKind::Dir, 0o755, b"")), &entries).unwrap();
        d
    };
    assert_eq!(run(), run());
}

#[test]
fn workspace_membership() {
    assert!(in_workspace(&b"/work".to_vec()));
    assert!(in_workspace(&b"/work/src".to_vec()));
    assert!(!in_workspace(&b"/workspace".to_vec()));
    assert!(!in_workspace(&b"/usr/lib".to_vec()));
    assert!(!in_workspace(&b"work".to_vec()));
    assert!(in_workspace(&b"/./work/x".to_vec()));
    assert!(in_workspace(&b"//work/x".to_vec()));
    assert!(in_workspace(&b"/work/".to_vec()));
    assert!(!in_workspace(&b"/.work/x".to_vec()));
    assert!(!in_workspace(&b"/".to_vec()));
}

#[test]
fn copy_dotted_workspace_source_is_tree() {
    let mut d = Digest::new();
    assert_eq!(copy_step("/./work/x").hash(&mut d, &None, &vec![]), Err(VersionError::New));
    assert_eq!(d.len(), 0);
}

#[test]
fn copy_external_source_hashes_parameters() {
    let mut step = copy_step("/usr/share/x");
    step.owner_uid = Some(7);
    let mut d1 = Digest::new();
    step.hash(&mut d1, &None, &vec![]).unwrap();
    let mut d2 = Digest::new();
    step.hash(&mut d2, &Some(entry("/usr/share/x", EntryKind::File, 0o644, b"changed")), &vec![]).unwrap();
    assert_eq!(d1, d2);
    let expected = vec![
        bytes(FieldName::Source, b"/usr/share/x"),
        bytes(FieldName::Path, b"/dest"),
        field(FieldName::PreservePermissions, FieldValue::Bool(false)),
        field(FieldName::OwnerUid, FieldValue::Int(7)),
        field(FieldName::Umask, FieldValue::Int(0o002)),
    ];
    assert_eq!(d1.fields(), &expected);
}

#[test]
fn copy_external_preserving_skips_owner() {
    let mut step = copy_step("/usr/share/x");
    step.preserve_permissions = true;
    step.owner_uid = Some(7);
    let mut d = Digest::new();
    step.hash(&mut d, &None, &vec![]).unwrap();
    assert_eq!(d.len(), 3);
}

#[test]
fn copy_workspace_source_hashes_tree() {
    let mut step = copy_step("/work/src");
    step.owner_gid = Some(5);
    let root = entry("/work/src", EntryKind::Dir, 0o700, b"");
    let entries = vec![entry("/work/src/run", EntryKind::File, 0o700, b"#!"), entry("/work/src/l", EntryKind::Symlink, 0o777, b"run")];
    let mut d = Digest::new();
    step.hash(&mut d, &Some(root), &entries).unwrap();
    let expected = vec![
        bytes(FieldName::Filename, b"/work/src"),
        field(FieldName::Mode, FieldValue::Int(0o775)),
        field(FieldName::Uid, FieldValue::Int(1000)),
        field(FieldName::Gid, FieldValue::Int(5)),
        bytes(FieldName::Filename, b"/work/src/run"),
        field(FieldName::Mode, FieldValue::Int(0o775)),
        field(FieldName::Uid, FieldValue::Int(1000)),
        field(FieldName::Gid, FieldValue::Int(5)),
        bytes(FieldName::FileContent, b"#!"),
        bytes(FieldName::Filename, b"/work/src/l"),
        field(FieldName::Uid, FieldValue::Int(1000)),
        field(FieldName::Gid, FieldValue::Int(5)),
        bytes(FieldName::Symlink, b"run"),
        bytes(FieldName::Path, b"/dest"),
    ];
    assert_eq!(d.fields(), &expected);
}

#[test]
fn copy_workspace_missing_source_is_new() {
    let mut d = Digest::new();
    assert_eq!(copy_step("/work/none").hash(&mut d, &None, &vec![]), Err(VersionError::New));
    assert_eq!(d.len(), 0);
}

#[test]
fn copy_calc_mode_and_name() {
    let step = copy_step("/work/a");
    assert_eq!(step.calc_mode(&meta(EntryKind::File, 0o644)), Some(0o664));
    assert_eq!(step.name(), "Copy");
    assert_eq!(step.is_dependent_on(), None);
}

#[test]
fn copy_no_build_plans_nothing() {
    let step = copy_step("/work/a");
    assert!(step.build(false, true, &vec![rel("x/y")]).unwrap().is_empty());
    assert!(step.build(false, false, &vec![]).unwrap().is_empty());
    let mut bad = copy_step("/work/a");
    bad.rules = vec!["rel".to_string()];
    assert!(bad.build(false, true, &vec![]).unwrap().is_empty());
}

#[test]
fn copy_plan_single_file() {
    let step = copy_step("/work/a");
    assert_eq!(step.build(true, false, &vec![rel("ignored")]).unwrap(), vec![Vec::<Vec<u8>>::new()]);
}

#[test]
fn copy_plan_parents_first_once() {
    let step = copy_step("/work/a");
    let plan = step.build(true, true, &vec![rel("x/y/z"), rel("x/w"), rel("x/y"), rel("b")]).unwrap();
    assert_eq!(plan, vec![Vec::new(), rel("x"), rel("x/y"), rel("x/y/z"), rel("x/w"), rel("b")]);
}

#[test]
fn build_step_dispatch() {
    let steps = vec![BuildStep::Depends(depends("x")), BuildStep::Copy(copy_step("/opt/x"))];
    assert_eq!(steps[0].name(), "Depends");
    assert_eq!(steps[1].name(), "Copy");
    assert_eq!(steps[1].is_dependent_on(), None);
    let mut d = Digest::new();
    assert_eq!(steps[0].hash(&mut d, &None, &vec![]), Err(VersionError::New));
    assert!(steps[1].hash(&mut d, &None, &vec![]).is_ok());
    assert_eq!(d.len(), 4);
}

#[test]
fn digest_optional_field_absent_is_noop() {
    let mut d = Digest::new();
    d.opt_field_int(FieldName::Mode, None);
    assert_eq!(d.len(), 0);
    d.opt_field_int(FieldName::Mode, Some(0o644));
    d.file(&b"abc".to_vec());
    assert_eq!(d.fields(), &vec![field(FieldName::Mode, FieldValue::Int(0o644)), bytes(FieldName::FileContent, b"abc")]);
}

#[test]
fn copy_build_bad_rules_fail_for_directory() {
    let mut step = copy_step("/work/a");
    step.rules = vec!["rel".to_string()];
    assert_eq!(step.build(true, true, &vec![]), Err(StepError::Config(FilterConfigError::RelativeInclude)));
    assert_eq!(step.build(true, false, &vec![]).unwrap(), vec![Vec::<Vec<u8>>::new()]);
}
