use vstd::prelude::*;
use vstd::string::*;

verus! {

/// Ignore pattern used by the regular-expression form when none is given:
/// version-control directories, editor backups and lock files.
pub const DEFAULT_IGNORE_REGEX: &'static str = "(^|/)\\.(git|hg|svn|vagga)($|/)|~$|\\.bak$|\\.orig$|^#.*#$";

pub open spec fn default_ignore_rules_spec() -> Seq<Seq<char>> {
    seq![
        "!.git/"@,
        "!.hg/"@,
        "!.svn/"@,
        "!.vagga/"@,
        "!*.bak"@,
        "!*.orig"@,
        "!*~"@,
        "!#*#"@,
        "!.#*"@,
    ]
}

/// The exclusion globs put in front of the user's glob rules unless the
/// defaults are switched off.
pub fn default_ignore_rules() -> (r: Vec<String>)
    ensures
        r@.map_values(|s: String| s@) == default_ignore_rules_spec(),
{
    let r: Vec<String> = vec![
        "!.git/".to_owned(),
        "!.hg/".to_owned(),
        "!.svn/".to_owned(),
        "!.vagga/".to_owned(),
        "!*.bak".to_owned(),
        "!*.orig".to_owned(),
        "!*~".to_owned(),
        "!#*#".to_owned(),
        "!.#*".to_owned(),
    ];
    assert(r@.map_values(|s: String| s@) =~= default_ignore_rules_spec());
    r
}

/// A compiled filter rule set, in exactly one of its two forms.
#[derive(Debug)]
pub enum FilterSpec {
    /// Glob rules in the order they apply, defaults first.
    Glob { rules: Vec<String> },
    /// An ignore pattern and an optional pattern that kept entries must match.
    Regex { ignore: String, keep: Option<String> },
}

/// Why a filter rule set was rejected before touching the filesystem.
#[derive(Clone, Copy, Debug, PartialEq, Eq, Structural)]
pub enum FilterConfigError {
    /// Both glob rules (or the defaults switch) and a regular expression were given.
    Ambiguous,
    /// A glob rule neither excludes (`!`) nor is anchored (`/`).
    RelativeInclude,
}

impl FilterConfigError {
    /// The message reported for this error.
    pub fn message(&self) -> (r: String)
        ensures
            r@ == (match self {
                FilterConfigError::Ambiguous => "You must specify either rules or regular expressions but not both"@,
                FilterConfigError::RelativeInclude => "Relative paths are allowed only for excluding rules"@,
            }),
    {
        match self {
            FilterConfigError::Ambiguous => "You must specify either rules or regular expressions but not both".to_owned(),
            FilterConfigError::RelativeInclude => "Relative paths are allowed only for excluding rules".to_owned(),
        }
    }
}

/// The model of a compiled rule set.
pub enum FilterModel {
    Glob(Seq<Seq<char>>),
    Regex(Seq<char>, Option<Seq<char>>),
}

pub open spec fn is_allowed_rule(rule: Seq<char>) -> bool {
    rule.len() > 0 && (rule[0] == '!' || rule[0] == '/')
}

pub open spec fn strings_view(v: Seq<String>) -> Seq<Seq<char>> {
    v.map_values(|s: String| s@)
}

pub open spec fn opt_view(o: Option<String>) -> Option<Seq<char>> {
    match o {
        Some(s) => Some(s@),
        None => None,
    }
}

impl FilterSpec {
    pub open spec fn view(self) -> FilterModel {
        match self {
            FilterSpec::Glob { rules } => FilterModel::Glob(strings_view(rules@)),
            FilterSpec::Regex { ignore, keep } => FilterModel::Regex(ignore@, opt_view(keep)),
        }
    }
}

/// Whether glob rules and regular expressions were both asked for.
pub open spec fn is_ambiguous(
    rules: Seq<Seq<char>>,
    no_default_rules: Option<bool>,
    ignore_regex: Option<Seq<char>>,
    include_regex: Option<Seq<char>>,
) -> bool {
    (rules.len() > 0 || no_default_rules is Some) && (ignore_regex is Some || include_regex is Some)
}

/// What compiling a rule set gives.
pub open spec fn compile_spec(
    rules: Seq<Seq<char>>,
    no_default_rules: Option<bool>,
    ignore_regex: Option<Seq<char>>,
    include_regex: Option<Seq<char>>,
) -> Result<FilterModel, FilterConfigError> {
    if is_ambiguous(rules, no_default_rules, ignore_regex, include_regex) {
        Err(FilterConfigError::Ambiguous)
    } else if rules.len() > 0 {
        if exists|i: int| 0 <= i < rules.len() && !is_allowed_rule(#[trigger] rules[i]) {
            Err(FilterConfigError::RelativeInclude)
        } else if no_default_rules == Some(true) {
            Ok(FilterModel::Glob(rules))
        } else {
            Ok(FilterModel::Glob(default_ignore_rules_spec() + rules))
        }
    } else {
        Ok(FilterModel::Regex(
            match ignore_regex {
                Some(s) => s,
                None => DEFAULT_IGNORE_REGEX@,
            },
            include_regex,
        ))
    }
}

pub open spec fn model_matches(r: Result<FilterSpec, FilterConfigError>, m: Result<FilterModel, FilterConfigError>) -> bool {
    match (r, m) {
        (Ok(f), Ok(g)) => f@ == g,
        (Err(e), Err(g)) => e == g,
        _ => false,
    }
}

fn is_allowed(rule: &String) -> (r: bool)
    ensures
        r == is_allowed_rule(rule@),
{
    let s = rule.as_str();
    if s.unicode_len() == 0 {
        return false;
    }
    let c = s.get_char(0);
    c == '!' || c == '/'
}

fn clone_opt(o: &Option<String>) -> (r: Option<String>)
    ensures
        opt_view(r) == opt_view(*o),
{
    match o {
        Some(s) => Some(s.clone()),
        None => None,
    }
}

/// Compiles a rule set: glob rules (with the default exclusions in front
/// unless `no_default_rules` is `Some(true)`) or a pair of regular
/// expressions (the ignore pattern defaulting to `DEFAULT_IGNORE_REGEX`),
/// never both.
pub fn create_path_filter(
    rules: &Vec<String>,
    no_default_rules: Option<bool>,
    ignore_regex: &Option<String>,
    include_regex: &Option<String>,
) -> (r: Result<FilterSpec, FilterConfigError>)
    ensures
        model_matches(
            r,
            compile_spec(strings_view(rules@), no_default_rules, opt_view(*ignore_regex), opt_view(*include_regex)),
        ),
{
    if (rules.len() > 0 || no_default_rules.is_some()) && (ignore_regex.is_some() || include_regex.is_some()) {
        return Err(FilterConfigError::Ambiguous);
    }
    if rules.len() > 0 {
        let mut all_rules: Vec<String> = if no_default_rules == Some(true) {
            Vec::new()
        } else {
            default_ignore_rules()
        };
        let ghost start = strings_view(all_rules@);
        let mut i: usize = 0;
        while i < rules.len()
            invariant
                0 <= i <= rules.len(),
                !is_ambiguous(strings_view(rules@), no_default_rules, opt_view(*ignore_regex), opt_view(*include_regex)),
                start == (if no_default_rules == Some(true) { Seq::<Seq<char>>::empty() } else { default_ignore_rules_spec() }),
                strings_view(all_rules@) == start + strings_view(rules@).subrange(0, i as int),
                forall|j: int| 0 <= j < i ==> is_allowed_rule(#[trigger] rules@[j]@),
            decreases rules.len() - i,
        {
            if !is_allowed(&rules[i]) {
                assert(!is_allowed_rule(strings_view(rules@)[i as int]));
                return Err(FilterConfigError::RelativeInclude);
            }
            let ghost prev = all_rules@;
            all_rules.push(rules[i].clone());
            assert(all_rules@ == prev.push(rules@[i as int]));
            assert(strings_view(all_rules@) =~= strings_view(prev).push(rules@[i as int]@));
            assert(strings_view(rules@).subrange(0, i + 1) =~= strings_view(rules@).subrange(0, i as int).push(rules@[i as int]@));
            assert(strings_view(all_rules@) =~= start + strings_view(rules@).subrange(0, i + 1));
            i = i + 1;
        }
        assert(strings_view(rules@).subrange(0, i as int) =~= strings_view(rules@));
        assert(forall|j: int| 0 <= j < strings_view(rules@).len() ==> is_allowed_rule(#[trigger] strings_view(rules@)[j]));
        Ok(FilterSpec::Glob { rules: all_rules })
    } else {
        let ignore = match ignore_regex {
            Some(s) => s.clone(),
            None => DEFAULT_IGNORE_REGEX.to_owned(),
        };
        Ok(FilterSpec::Regex { ignore, keep: clone_opt(include_regex) })
    }
}

/// Glob rules and regular expressions exclude each other, and a glob rule
/// must exclude (`!`) or be anchored (`/`).
pub proof fn lemma_rule_forms_exclusive(
    rules: Seq<Seq<char>>,
    no_default_rules: Option<bool>,
    ignore_regex: Option<Seq<char>>,
    include_regex: Option<Seq<char>>,
    i: int,
)
    ensures
        rules.len() > 0 && (ignore_regex is Some || include_regex is Some) ==> compile_spec(
            rules,
            no_default_rules,
            ignore_regex,
            include_regex,
        ) == Err::<FilterModel, FilterConfigError>(FilterConfigError::Ambiguous),
        ignore_regex is None && include_regex is None && 0 <= i < rules.len() && !is_allowed_rule(rules[i])
            ==> compile_spec(rules, no_default_rules, ignore_regex, include_regex) == Err::<
            FilterModel,
            FilterConfigError,
        >(FilterConfigError::RelativeInclude),
{
}

} // verus!

