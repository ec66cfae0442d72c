//! Project scaffolding: template manifests, prompt answers, the token map
//! and the decisions of the `create` command.
use vstd::prelude::*;
use crate::casing::{heck_kebab, heck_pascal, heck_snake, kebab_case, pascal_case, snake_case, validate, validator_verdict, kebab_ok, ValidateError};
use crate::path::{path_display, path_file_name, strip_first_spec, FsPath, PathView};
use crate::render::{apply_tokens, apply_tokens_path, render, render_expr, render_result_agrees, render_spec, tokens_applied, RenderError, RenderOutcome};
use crate::strmap::StrMap;
use crate::text::{chars_eq, chars_of, copy_string, has_prefix, seq_lt, str_eq, str_lt, chars_starts_with};

verus! {

/// The `[template]` table of a `template.toml`.
pub struct TemplateMeta {
    pub id: String,
    pub display: String,
    pub description: String,
    /// Free-form category label shown in the picker (e.g. "rust", "js").
    pub category: String,
}

/// One question asked while scaffolding.
pub struct PromptSpec {
    pub key: String,
    pub question: String,
    /// Default value as a template expression; may reference earlier
    /// answers (e.g. `{{project_name|snake}}`).
    pub default: Option<String>,
    /// One of `kebab`, `snake`, `pascal`, `identifier`, `none`.
    pub validate: String,
}

/// A template's `template.toml`.
pub struct TemplateManifest {
    pub template: TemplateMeta,
    pub prompts: Vec<PromptSpec>,
    /// Extra token replacements, evaluated after all prompts: literal
    /// strings to find, mapped to template expressions.
    pub tokens: StrMap,
}

/// What the `create` command was asked for.
pub struct CreateOptions {
    /// Target directory; prompted for when absent.
    pub path: Option<FsPath>,
    /// A known template id, skipping the picker.
    pub template: Option<String>,
    /// The project name, skipping its prompt.
    pub name: Option<String>,
    /// Refuse anything that would need interactive input.
    pub no_input: bool,
    /// Scaffold into a non-empty directory.
    pub force: bool,
}

/// Why scaffolding stopped.
pub enum CreateError {
    NoTemplates,
    NoSuchTemplate { id: String },
    TemplateRequired,
    PathRequired,
    NameRequired,
    TargetNotEmpty,
    InvalidName { name: String, cause: ValidateError },
    MissingDefault { key: String },
    ProjectNameMissing,
    Render(RenderError),
    Validate(ValidateError),
}

/// The validator used when a prompt names none.
pub fn default_validate() -> (r: String)
    ensures
        r@ == "none"@,
{
    copy_string("none")
}

// ---------------------------------------------------------------------
// Token map
// ---------------------------------------------------------------------

/// The index of the first expression among `exprs[i..]` that does not
/// render to text.
pub open spec fn first_failure(exprs: Seq<Seq<char>>, vars: StrMap, i: int) -> Option<int>
    decreases exprs.len() - i,
{
    if i < 0 || i >= exprs.len() {
        None
    } else if render_spec(exprs[i], vars) is Text {
        first_failure(exprs, vars, i + 1)
    } else {
        Some(i)
    }
}

pub open spec fn text_of(o: RenderOutcome) -> Seq<char> {
    match o {
        RenderOutcome::Text(t) => t,
        _ => Seq::empty(),
    }
}

/// The tokens every template gets from the cased project name:
/// `ReplaceMe` (Pascal), `replace-me` (kebab), `replace_me` (snake).
pub open spec fn cased_token(k: Seq<char>, pascal: Seq<char>, kebab: Seq<char>, snake: Seq<char>) -> Option<
    Seq<char>,
> {
    if k == "ReplaceMe"@ {
        Some(pascal)
    } else if k == "replace-me"@ {
        Some(kebab)
    } else if k == "replace_me"@ {
        Some(snake)
    } else {
        None
    }
}

/// The tokens every template gets from the project name.
pub open spec fn base_token(k: Seq<char>, project: Seq<char>) -> Option<Seq<char>> {
    cased_token(k, heck_pascal(project), heck_kebab(project), heck_snake(project))
}

/// The map of the three tokens taken from the project name, given its
/// Pascal, kebab and snake forms.
pub fn cased_token_map(pascal: &str, kebab: &str, snake: &str) -> (t: StrMap)
    ensures
        t.wf(),
        t.keys().to_set() == set!["ReplaceMe"@, "replace-me"@, "replace_me"@],
        forall|k: Seq<char>| #[trigger] t.lookup(k) == cased_token(k, pascal@, kebab@, snake@),
{
    let mut tokens = StrMap::new();
    let ghost t0 = tokens;
    tokens.insert("ReplaceMe", pascal);
    let ghost t1 = tokens;
    tokens.insert("replace-me", kebab);
    let ghost t2 = tokens;
    tokens.insert("replace_me", snake);
    proof {
        reveal_strlit("ReplaceMe");
        reveal_strlit("replace-me");
        reveal_strlit("replace_me");
    }
    assert(tokens.keys().to_set() =~= set!["ReplaceMe"@, "replace-me"@, "replace_me"@]);
    assert forall|k: Seq<char>| #[trigger] tokens.lookup(k) == cased_token(k, pascal@, kebab@, snake@) by {
        reveal_strlit("ReplaceMe");
        reveal_strlit("replace-me");
        reveal_strlit("replace_me");
        assert("replace-me"@[7] != "replace_me"@[7]);
        assert("replace-me"@ != "replace_me"@);
        assert("ReplaceMe"@.len() != "replace_me"@.len());
        assert("ReplaceMe"@.len() != "replace-me"@.len());
        assert(t0.lookup(k) is None);
        assert(t1.lookup(k) == if k == "ReplaceMe"@ { Some(pascal@) } else { t0.lookup(k) });
        assert(t2.lookup(k) == if k == "replace-me"@ { Some(kebab@) } else { t1.lookup(k) });
        assert(tokens.lookup(k) == if k == "replace_me"@ { Some(snake@) } else { t2.lookup(k) });
    }
    tokens
}

/// The token map for `project` and the extra tokens, all rendered.
pub open spec fn token_value(k: Seq<char>, project: Seq<char>, extras: StrMap, answers: StrMap) -> Option<
    Seq<char>,
> {
    match extras.lookup(k) {
        Some(expr) => Some(text_of(render_spec(expr, answers))),
        None => base_token(k, project),
    }
}

/// No expression among the extra tokens renders into an undefined
/// variable before rendering first fails.
pub open spec fn extras_defined(extras: StrMap, answers: StrMap) -> bool {
    match first_failure(extras.values(), answers, 0) {
        Some(i) => !(render_spec(extras.values()[i], answers) is UnknownVariable),
        None => true,
    }
}

/// The token map: `ReplaceMe`, `replace-me` and `replace_me` from the
/// project name (Pascal, kebab, snake case), then each extra token's
/// expression rendered against the answers, in key order.
pub fn build_token_map(answers: &StrMap, extras: &StrMap) -> (r: Result<StrMap, CreateError>)
    requires
        answers.wf(),
        extras.wf(),
        answers.lookup("project_name"@) is Some ==> extras_defined(*extras, *answers),
    ensures
        match answers.lookup("project_name"@) {
            None => r is Err && r matches Err(CreateError::ProjectNameMissing),
            Some(project) => match first_failure(extras.values(), *answers, 0) {
                Some(i) => r matches Err(CreateError::Render(e)) && render_result_agrees(
                    Err(e),
                    extras.values()[i],
                    *answers,
                ),
                None => r matches Ok(t) && t.wf() && t.keys().to_set() == extras.keys().to_set()
                    + set!["ReplaceMe"@, "replace-me"@, "replace_me"@] && forall|k: Seq<char>|
                    #[trigger] t.lookup(k) == token_value(k, project, *extras, *answers),
            },
        },
{
    let project = match answers.get("project_name") {
        None => {
            return Err(CreateError::ProjectNameMissing);
        },
        Some(p) => p,
    };
    let pas = pascal_case(project.as_str());
    let keb = kebab_case(project.as_str());
    let sna = snake_case(project.as_str());
    let mut tokens = cased_token_map(pas.as_str(), keb.as_str(), sna.as_str());
    assert(forall|k: Seq<char>| #[trigger] tokens.lookup(k) == base_token(k, project@));
    let ghost ev = extras.values();
    let ghost ek = extras.keys();
    let n = extras.len();
    let mut i: usize = 0;
    assert(ek.take(0) =~= Seq::<Seq<char>>::empty());
    while i < n
        invariant
            answers.wf(),
            extras.wf(),
            tokens.wf(),
            n == extras.size(),
            ev == extras.values(),
            ek == extras.keys(),
            i <= n,
            answers.lookup("project_name"@) == Some(project@),
            answers.lookup("project_name"@) is Some ==> extras_defined(*extras, *answers),
            first_failure(ev, *answers, 0) == first_failure(ev, *answers, i as int),
            tokens.keys().to_set() == ek.take(i as int).to_set() + set![
                "ReplaceMe"@,
                "replace-me"@,
                "replace_me"@,
            ],
            forall|k: Seq<char>|
                #[trigger] tokens.lookup(k) == if ek.take(i as int).contains(k) {
                    token_value(k, project@, *extras, *answers)
                } else {
                    base_token(k, project@)
                },
        decreases n - i,
    {
        let key = extras.key_at(i);
        let expr = extras.value_at(i);
        proof {
            extras.lemma_lookup_at(i as int);
        }
        let value = match render_expr(expr.as_str(), answers) {
            Ok(v) => v,
            Err(e) => {
                return Err(CreateError::Render(e));
            },
        };
        let ghost before = tokens;
        tokens.insert(key.as_str(), value.as_str());
        proof {
            let t1 = ek.take(i + 1);
            assert(t1 =~= ek.take(i as int).push(ek[i as int]));
            assert forall|q: Seq<char>| t1.contains(q) <==> (ek.take(i as int).contains(q) || q
                == ek[i as int]) by {
                if t1.contains(q) {
                    let j = t1.index_of(q);
                    if j < i {
                        assert(ek.take(i as int)[j] == q);
                    }
                }
                if ek.take(i as int).contains(q) {
                    let j = ek.take(i as int).index_of(q);
                    assert(t1[j] == q);
                }
                if q == ek[i as int] {
                    assert(t1[i as int] == q);
                }
            }
            assert(t1.to_set() =~= ek.take(i as int).to_set().insert(ek[i as int]));
            assert(tokens.keys().to_set() =~= t1.to_set() + set![
                "ReplaceMe"@,
                "replace-me"@,
                "replace_me"@,
            ]);
            assert forall|k: Seq<char>| #[trigger]
                tokens.lookup(k) == if t1.contains(k) {
                    token_value(k, project@, *extras, *answers)
                } else {
                    base_token(k, project@)
                } by {
                if k == ek[i as int] {
                    assert(t1[i as int] == k);
                } else {
                    if t1.contains(k) {
                        let j = t1.index_of(k);
                        assert(ek.take(i as int)[j] == k);
                    }
                    if ek.take(i as int).contains(k) {
                        let j = ek.take(i as int).index_of(k);
                        assert(t1[j] == k);
                    }
                }
            }
        }
        i += 1;
    }
    proof {
        assert(ek.take(n as int) =~= ek);
        assert forall|k: Seq<char>| #[trigger]
            tokens.lookup(k) == token_value(k, project@, *extras, *answers) by {
            if !ek.contains(k) {
                assert(extras.lookup(k) is None);
            }
        }
    }
    Ok(tokens)
}

// ---------------------------------------------------------------------
// Project name and files
// ---------------------------------------------------------------------

/// A kebab-cased directory name as the suggested project name, unless it
/// is missing, empty or `.`, in which case `my-project`.
pub open spec fn name_or_default(kebab_name: Option<Seq<char>>) -> Seq<char> {
    match kebab_name {
        Some(k) => if k.len() > 0 && k != "."@ {
            k
        } else {
            "my-project"@
        },
        None => "my-project"@,
    }
}

/// The suggested project name: the one given, else the kebab-cased last
/// component of the target directory, else `my-project`.
pub open spec fn project_default_spec(target: PathView, cli_name: Option<Seq<char>>) -> Seq<char> {
    match cli_name {
        Some(n) => n,
        None => name_or_default(
            match path_file_name(target) {
                Some(f) => Some(heck_kebab(f)),
                None => None,
            },
        ),
    }
}

pub fn project_name_or_default(kebab_name: Option<&str>) -> (r: String)
    ensures
        r@ == name_or_default(
            match kebab_name {
                Some(k) => Some(k@),
                None => None,
            },
        ),
{
    match kebab_name {
        Some(k) => if !k.is_empty() && !str_eq(k, ".") {
            copy_string(k)
        } else {
            copy_string("my-project")
        },
        None => copy_string("my-project"),
    }
}

pub fn derived_project_default(target: &FsPath, cli_name: Option<&str>) -> (r: String)
    ensures
        r@ == project_default_spec(
            target@,
            match cli_name {
                Some(n) => Some(n@),
                None => None,
            },
        ),
{
    if let Some(n) = cli_name {
        return copy_string(n);
    }
    match target.file_name() {
        Some(f) => {
            let k = kebab_case(f.as_str());
            project_name_or_default(Some(k.as_str()))
        },
        None => project_name_or_default(None),
    }
}

pub fn strip_template_prefix(p: &FsPath) -> (r: FsPath)
    ensures
        r@ == strip_first_spec(p@),
{
    p.without_first()
}

/// A file of a template as it is written out.
pub struct TemplateFile {
    /// Path relative to the target directory, tokens substituted.
    pub rel_path: String,
    /// Text with tokens substituted; `None` for a file that is not UTF-8,
    /// which is copied unchanged.
    pub text: Option<String>,
}

/// What becomes of the template file at `path` (rooted at the templates
/// directory, e.g. `rust-wasm-gauge/Cargo.toml`) whose contents are
/// `text` when they are UTF-8: nothing for the manifest `template.toml`,
/// else the path without the template's directory and the text, both
/// with tokens substituted.
pub fn plan_template_file(path: &FsPath, text: Option<&str>, tokens: &StrMap) -> (r: Option<
    TemplateFile,
>)
    requires
        tokens.wf(),
    ensures
        path_file_name(path@) == Some("template.toml"@) ==> r is None,
        path_file_name(path@) != Some("template.toml"@) ==> (r matches Some(f) && f.rel_path@
            == tokens_applied(path_display(strip_first_spec(path@)), *tokens) && match text {
            Some(t) => f.text matches Some(u) && u@ == tokens_applied(t@, *tokens),
            None => f.text is None,
        }),
{
    if let Some(name) = path.file_name() {
        if str_eq(name.as_str(), "template.toml") {
            return None;
        }
    }
    let rel = strip_template_prefix(path);
    let shown = rel.display();
    let rel_path = apply_tokens_path(shown.as_str(), tokens);
    let text = match text {
        Some(t) => Some(apply_tokens(t, tokens)),
        None => None,
    };
    Some(TemplateFile { rel_path, text })
}

// ---------------------------------------------------------------------
// Decisions of `create`
// ---------------------------------------------------------------------

/// How the template is chosen.
pub enum TemplateChoice {
    /// The template at this index.
    Index(usize),
    /// Ask the user to pick one.
    Pick,
}

/// The first template whose id is `id`.
pub open spec fn index_of_id(templates: Seq<TemplateManifest>, id: Seq<char>, i: int) -> Option<int>
    decreases templates.len() - i,
{
    if i < 0 || i >= templates.len() {
        None
    } else if templates[i].template.id@ == id {
        Some(i)
    } else {
        index_of_id(templates, id, i + 1)
    }
}

pub open spec fn choice_for_id(
    r: Result<TemplateChoice, CreateError>,
    found: Option<int>,
    id: Seq<char>,
) -> bool {
    match found {
        Some(j) => r matches Ok(TemplateChoice::Index(k)) && k == j,
        None => r matches Err(CreateError::NoSuchTemplate { id: e }) && e@ == id,
    }
}

/// Chooses the template: the one with the requested id, else a pick
/// (refused without input).
pub fn choose_template(
    templates: &Vec<TemplateManifest>,
    requested: Option<&str>,
    no_input: bool,
) -> (r: Result<TemplateChoice, CreateError>)
    ensures
        templates.len() == 0 ==> r matches Err(CreateError::NoTemplates),
        templates.len() > 0 ==> match requested {
            Some(id) => choice_for_id(r, index_of_id(templates@, id@, 0), id@),
            None => if no_input {
                r matches Err(CreateError::TemplateRequired)
            } else {
                r matches Ok(TemplateChoice::Pick)
            },
        },
{
    if templates.len() == 0 {
        return Err(CreateError::NoTemplates);
    }
    match requested {
        Some(id) => {
            let mut i: usize = 0;
            while i < templates.len()
                invariant
                    i <= templates.len(),
                    templates.len() > 0,
                    requested == Some(id),
                    index_of_id(templates@, id@, 0) == index_of_id(templates@, id@, i as int),
                decreases templates.len() - i,
            {
                if str_eq(templates[i].template.id.as_str(), id) {
                    assert(index_of_id(templates@, id@, i as int) == Some(i as int));
                    return Ok(TemplateChoice::Index(i));
                }
                i += 1;
            }
            Err(CreateError::NoSuchTemplate { id: copy_string(id) })
        },
        None => if no_input {
            Err(CreateError::TemplateRequired)
        } else {
            Ok(TemplateChoice::Pick)
        },
    }
}

/// Without a target directory, one must be asked for; refused without
/// input.
pub fn require_target(has_path: bool, no_input: bool) -> (r: Result<bool, CreateError>)
    ensures
        has_path ==> r == Ok::<bool, CreateError>(false),
        !has_path && no_input ==> r matches Err(CreateError::PathRequired),
        !has_path && !no_input ==> r == Ok::<bool, CreateError>(true),
{
    if has_path {
        Ok(false)
    } else if no_input {
        Err(CreateError::PathRequired)
    } else {
        Ok(true)
    }
}

/// An existing target directory must be empty unless forced.
pub fn check_target(exists: bool, empty: bool, force: bool) -> (r: Result<(), CreateError>)
    ensures
        r is Ok <==> !(exists && !empty && !force),
        r is Err ==> r matches Err(CreateError::TargetNotEmpty),
{
    if exists && !empty && !force {
        Err(CreateError::TargetNotEmpty)
    } else {
        Ok(())
    }
}

/// Where the project name comes from.
pub enum NameChoice {
    Given(String),
    Ask,
}

/// The project name: the one given, which must be kebab-case, else asked
/// for (refused without input).
pub fn choose_project_name(name: Option<&str>, no_input: bool) -> (r: Result<
    NameChoice,
    CreateError,
>)
    ensures
        match name {
            Some(n) => if kebab_ok(n@) {
                r matches Ok(NameChoice::Given(g)) && g@ == n@
            } else {
                r matches Err(CreateError::InvalidName { name: m, cause: ValidateError::NotValid { .. } })
                    && m@ == n@
            },
            None => if no_input {
                r matches Err(CreateError::NameRequired)
            } else {
                r matches Ok(NameChoice::Ask)
            },
        },
{
    match name {
        Some(n) => {
            let v = validate(n, "kebab");
            proof {
                reveal_strlit("kebab");
                reveal_strlit("none");
                assert("kebab"@.len() != "none"@.len());
            }
            match v {
                Ok(()) => Ok(NameChoice::Given(copy_string(n))),
                Err(e) => Err(CreateError::InvalidName { name: copy_string(n), cause: e }),
            }
        },
        None => if no_input {
            Err(CreateError::NameRequired)
        } else {
            Ok(NameChoice::Ask)
        },
    }
}

/// The answer to a prompt when no input may be asked for: its default,
/// rendered against the answers so far and validated.
pub fn no_input_answer(spec: &PromptSpec, answers: &StrMap) -> (r: Result<String, CreateError>)
    requires
        answers.wf(),
        spec.default matches Some(d) ==> !(render_spec(d@, *answers) is UnknownVariable),
    ensures
        match spec.default {
            None => r matches Err(CreateError::MissingDefault { key }) && key@ == spec.key@,
            Some(d) => match render_spec(d@, *answers) {
                RenderOutcome::Text(t) => match validator_verdict(t, spec.validate@) {
                    Some(true) => r matches Ok(v) && v@ == t,
                    Some(false) => r matches Err(
                        CreateError::Validate(ValidateError::NotValid { value, kind }),
                    ) && value@ == t && kind@ == spec.validate@,
                    None => r matches Err(
                        CreateError::Validate(ValidateError::UnknownValidator { kind }),
                    ) && kind@ == spec.validate@,
                },
                _ => r matches Err(CreateError::Render(e)) && render_result_agrees(
                    Err(e),
                    d@,
                    *answers,
                ),
            },
        },
{
    let raw = match &spec.default {
        None => {
            return Err(CreateError::MissingDefault { key: spec.key.clone() });
        },
        Some(d) => d,
    };
    let resolved = match render_expr(raw.as_str(), answers) {
        Ok(v) => v,
        Err(e) => {
            return Err(CreateError::Render(e));
        },
    };
    match validate(resolved.as_str(), spec.validate.as_str()) {
        Ok(()) => Ok(resolved),
        Err(e) => Err(CreateError::Validate(e)),
    }
}

/// The commands suggested once a project is scaffolded: `doctor` and
/// `build` for Rust templates (ids starting with `rust-`), `bun install`
/// and `bun run infinity:build` otherwise, after `cd` into the target.
pub open spec fn next_steps_spec(template_id: Seq<char>, target: Seq<char>) -> Seq<Seq<char>> {
    if has_prefix(template_id, "rust-"@) {
        seq!["cd "@ + target, "infinity-msfs doctor"@, "infinity-msfs build"@]
    } else {
        seq!["cd "@ + target, "bun install"@, "bun run infinity:build"@]
    }
}

pub fn next_steps(template_id: &str, target: &str) -> (r: Vec<String>)
    ensures
        r@.map_values(|s: String| s@) == next_steps_spec(template_id@, target@),
{
    let mut cd = copy_string("cd ");
    cd.append(target);
    let idc = chars_of(template_id);
    let rust = chars_starts_with(&idc, &chars_of("rust-"));
    let mut out: Vec<String> = Vec::new();
    out.push(cd);
    if rust {
        out.push(copy_string("infinity-msfs doctor"));
        out.push(copy_string("infinity-msfs build"));
    } else {
        out.push(copy_string("bun install"));
        out.push(copy_string("bun run infinity:build"));
    }
    assert(out@.map_values(|s: String| s@) =~= next_steps_spec(template_id@, target@));
    out
}

/// Inserts index `i` after every index whose key is not greater than
/// `keys[i]`.
pub open spec fn insert_ascending(sorted: Seq<int>, i: int, keys: Seq<Seq<char>>) -> Seq<int>
    decreases sorted.len(),
{
    if sorted.len() == 0 {
        seq![i]
    } else if seq_lt(keys[i], keys[sorted[0]]) {
        seq![i] + sorted
    } else {
        seq![sorted[0]] + insert_ascending(sorted.drop_first(), i, keys)
    }
}

/// The indices `0..n` stably sorted by ascending key.
pub open spec fn ascending_order(keys: Seq<Seq<char>>, n: int) -> Seq<int>
    decreases n,
{
    if n <= 0 {
        Seq::empty()
    } else {
        insert_ascending(ascending_order(keys, n - 1), n - 1, keys)
    }
}

proof fn lemma_insert_ascending_at(sorted: Seq<int>, i: int, keys: Seq<Seq<char>>, p: int)
    requires
        0 <= p <= sorted.len(),
        forall|j: int| 0 <= j < p ==> !seq_lt(keys[i], keys[#[trigger] sorted[j]]),
        p < sorted.len() ==> seq_lt(keys[i], keys[sorted[p]]),
    ensures
        insert_ascending(sorted, i, keys) == sorted.take(p) + seq![i] + sorted.skip(p),
    decreases sorted.len(),
{
    if sorted.len() == 0 {
        assert(sorted.take(p) + seq![i] + sorted.skip(p) =~= seq![i]);
    } else if p == 0 {
        assert(sorted.take(0) + seq![i] + sorted.skip(0) =~= seq![i] + sorted);
    } else {
        let t = sorted.drop_first();
        assert forall|j: int| 0 <= j < p - 1 implies !seq_lt(keys[i], keys[#[trigger] t[j]]) by {
            assert(t[j] == sorted[j + 1]);
        }
        lemma_insert_ascending_at(t, i, keys, p - 1);
        assert(seq![sorted[0]] + (t.take(p - 1) + seq![i] + t.skip(p - 1)) =~= sorted.take(p)
            + seq![i] + sorted.skip(p));
    }
}

/// The order in which templates are listed: stably sorted by display
/// name.
pub fn template_order(templates: &Vec<TemplateManifest>) -> (r: Vec<usize>)
    ensures
        r@.map_values(|k: usize| k as int) == ascending_order(
            templates@.map_values(|t: TemplateManifest| t.template.display@),
            templates.len() as int,
        ),
{
    let ghost keys = templates@.map_values(|t: TemplateManifest| t.template.display@);
    let mut order: Vec<usize> = Vec::new();
    let mut i: usize = 0;
    assert(order@.map_values(|k: usize| k as int) =~= Seq::<int>::empty());
    while i < templates.len()
        invariant
            i <= templates.len(),
            keys == templates@.map_values(|t: TemplateManifest| t.template.display@),
            forall|j: int| 0 <= j < order.len() ==> #[trigger] order@[j] < i,
            order@.map_values(|k: usize| k as int) == ascending_order(keys, i as int),
        decreases templates.len() - i,
    {
        let mut p: usize = 0;
        while p < order.len() && !str_lt(
            templates[i].template.display.as_str(),
            templates[order[p]].template.display.as_str(),
        )
            invariant
                i < templates.len(),
                keys == templates@.map_values(|t: TemplateManifest| t.template.display@),
                p <= order.len(),
                forall|j: int| 0 <= j < order.len() ==> #[trigger] order@[j] < i,
                forall|j: int|
                    0 <= j < p ==> !seq_lt(keys[i as int], keys[#[trigger] order@[j] as int]),
            decreases order.len() - p,
        {
            p += 1;
        }
        let ghost before = order@.map_values(|k: usize| k as int);
        proof {
            assert forall|j: int| 0 <= j < p implies !seq_lt(
                keys[i as int],
                keys[#[trigger] before[j]],
            ) by {
                assert(before[j] == order@[j] as int);
            }
            if p < order.len() {
                assert(before[p as int] == order@[p as int] as int);
            }
            lemma_insert_ascending_at(before, i as int, keys, p as int);
        }
        order.insert(p, i);
        assert(order@.map_values(|k: usize| k as int) =~= before.take(p as int) + seq![i as int]
            + before.skip(p as int));
        i += 1;
    }
    order
}

} // verus!
