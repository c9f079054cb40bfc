//! Recognising acquisition commands (clones, package installs, skill adds,
//! downloads) in the argument vectors that agents run.

use vstd::prelude::*;

use crate::error::CoreError;
use crate::identity::{
    id_of, new_spec, parse_component, parse_spec, strings_view, ComponentId, ComponentRef,
    Ecosystem,
};
use crate::sandbox::{normal_parts, path_key, path_key_exec};
use crate::text::{
    append_chars, append_str, chars_of, has_char, has_char_exec, has_prefix_str, slice_chars,
    split_chars, starts_with, str_eq, string_of, views, chars_eq, lemma_split_single,
};

verus! {

/// A recognised acquisition: the typed component and a description of the
/// operation.
#[derive(Clone, Debug)]
pub struct Acquisition {
    pub component: ComponentRef,
    pub description: String,
}

pub struct AcquisitionView {
    pub component: ComponentId,
    pub description: Seq<char>,
}

impl View for Acquisition {
    type V = AcquisitionView;

    open spec fn view(&self) -> AcquisitionView {
        AcquisitionView { component: self.component@, description: self.description@ }
    }
}

pub open spec fn acquisition_view(r: Result<Option<Acquisition>, CoreError>) -> Result<
    Option<AcquisitionView>,
    CoreError,
> {
    match r {
        Ok(Some(a)) => Ok(Some(a@)),
        Ok(None) => Ok(None),
        Err(e) => Err(e),
    }
}

/// The executable name of a program path: its last named component, or the
/// text itself when it has none.
pub open spec fn command_name(program: Seq<char>) -> Seq<char> {
    let k = path_key(program);
    if k.len() > 0 && k.last() != ".."@ {
        k.last()
    } else {
        program
    }
}

pub open spec fn is_flag(a: Seq<char>) -> bool {
    starts_with(a, "-"@)
}

/// Subcommand sets that introduce a package argument.
#[derive(Clone, Copy, Debug, PartialEq, Eq, Structural)]
pub enum Verbs {
    /// `install`
    Install,
    /// `add`, `install`
    AddInstall,
    /// `add`, `install`, `i`
    AddInstallShort,
    /// `get`, `install`
    GetInstall,
    /// `add`
    Add,
    /// `clone`
    Clone,
}

pub open spec fn verb_words(k: Verbs) -> Seq<Seq<char>> {
    match k {
        Verbs::Install => seq!["install"@],
        Verbs::AddInstall => seq!["add"@, "install"@],
        Verbs::AddInstallShort => seq!["add"@, "install"@, "i"@],
        Verbs::GetInstall => seq!["get"@, "install"@],
        Verbs::Add => seq!["add"@],
        Verbs::Clone => seq!["clone"@],
    }
}

/// The first index at or after `from` holding one of the words of `k`.
pub open spec fn first_verb(args: Seq<Seq<char>>, k: Verbs, from: int) -> Option<int>
    decreases args.len() - from,
{
    if from < 0 || from >= args.len() {
        None
    } else if verb_words(k).contains(args[from]) {
        Some(from)
    } else {
        first_verb(args, k, from + 1)
    }
}

/// The first index at or after `from` holding an argument that is not a flag.
pub open spec fn first_positional(args: Seq<Seq<char>>, from: int) -> Option<int>
    decreases args.len() - from,
{
    if from < 0 || from >= args.len() {
        None
    } else if !is_flag(args[from]) {
        Some(from)
    } else {
        first_positional(args, from + 1)
    }
}

/// Whether a word is a web address, secure or not (a plain `http://`
/// address is recognized so that it is refused, never passed through).
pub open spec fn is_address(w: Seq<char>) -> bool {
    starts_with(w, "https://"@) || starts_with(w, "http://"@)
}

/// The first index at or after `from` holding an `http://` or `https://`
/// address.
pub open spec fn first_address(args: Seq<Seq<char>>, from: int) -> Option<int>
    decreases args.len() - from,
{
    if from < 0 || from >= args.len() {
        None
    } else if is_address(args[from]) {
        Some(from)
    } else {
        first_address(args, from + 1)
    }
}

/// The first index `i` at or after `from` with `args[i] == "repo"` and
/// `args[i + 1] == "clone"`.
pub open spec fn first_repo_clone(args: Seq<Seq<char>>, from: int) -> Option<int>
    decreases args.len() - from,
{
    if from < 0 || from + 1 >= args.len() {
        None
    } else if args[from] == "repo"@ && args[from + 1] == "clone"@ {
        Some(from)
    } else {
        first_repo_clone(args, from + 1)
    }
}

/// The arguments that are not flags, in order.
pub open spec fn positionals(args: Seq<Seq<char>>) -> Seq<Seq<char>>
    decreases args.len(),
{
    if args.len() == 0 {
        args
    } else if is_flag(args.last()) {
        positionals(args.drop_last())
    } else {
        positionals(args.drop_last()).push(args.last())
    }
}

pub open spec fn version_sep(c: char) -> bool {
    c == '=' || c == '<' || c == '>' || c == '~'
}

/// A package argument up to its first version constraint character.
pub open spec fn package_name(p: Seq<char>) -> Seq<char>
    decreases p.len(),
{
    if p.len() == 0 {
        p
    } else if version_sep(p[0]) {
        Seq::<char>::empty()
    } else {
        seq![p[0]] + package_name(p.drop_first())
    }
}

/// The acquisition named by a clone source: a typed reference or address
/// when it holds `:` or starts with `https://`, a GitHub `owner/project`
/// otherwise.
pub open spec fn from_source_spec(source: Seq<char>, operation: Seq<char>) -> Result<
    AcquisitionView,
    CoreError,
> {
    let c = if has_char(source, ':') || starts_with(source, "https://"@) {
        parse_spec(source)
    } else {
        new_spec(Ecosystem::Github, source, None)
    };
    match c {
        Ok(id) => Ok(AcquisitionView { component: id, description: operation + " "@ + id_of(id) }),
        Err(e) => Err(e),
    }
}

pub open spec fn lift(r: Result<AcquisitionView, CoreError>) -> Result<
    Option<AcquisitionView>,
    CoreError,
> {
    match r {
        Ok(a) => Ok(Some(a)),
        Err(e) => Err(e),
    }
}

/// A package manager's install: the first non-flag argument after the first
/// subcommand of `k`, without its version constraint.
pub open spec fn packages_spec(
    ecosystem: Ecosystem,
    manager: Seq<char>,
    args: Seq<Seq<char>>,
    k: Verbs,
) -> Result<Option<AcquisitionView>, CoreError> {
    match first_verb(args, k, 0) {
        None => Ok(None),
        Some(i) => match first_positional(args, i + 1) {
            None => Ok(None),
            Some(j) => match new_spec(ecosystem, package_name(args[j]), None) {
                Ok(c) => Ok(
                    Some(
                        AcquisitionView {
                            component: c,
                            description: manager + " acquisition "@ + id_of(c),
                        },
                    ),
                ),
                Err(e) => Err(e),
            },
        },
    }
}

pub open spec fn git_spec(args: Seq<Seq<char>>) -> Result<Option<AcquisitionView>, CoreError> {
    match first_verb(args, Verbs::Clone, 0) {
        None => Ok(None),
        Some(i) => match first_positional(args, i + 1) {
            None => Ok(None),
            Some(j) => lift(from_source_spec(args[j], "git clone"@)),
        },
    }
}

pub open spec fn gh_spec(args: Seq<Seq<char>>) -> Result<Option<AcquisitionView>, CoreError> {
    match first_repo_clone(args, 0) {
        None => Ok(None),
        Some(i) => if i + 2 < args.len() {
            lift(from_source_spec(args[i + 2], "gh repo clone"@))
        } else {
            Ok(None)
        },
    }
}

/// `npx skills add owner/skill` installs an agent skill; any other `npx`
/// runs its first positional argument as an npm package.
pub open spec fn npx_spec(args: Seq<Seq<char>>) -> Result<Option<AcquisitionView>, CoreError> {
    let p = positionals(args);
    if p.len() >= 3 && (p[0] == "skills"@ || p[0] == "skill"@) && p[1] == "add"@ && has_char(
        p[2],
        '/',
    ) {
        match new_spec(Ecosystem::Skill, p[2], None) {
            Ok(c) => Ok(
                Some(
                    AcquisitionView {
                        component: c,
                        description: "agent skill installation "@ + p[2],
                    },
                ),
            ),
            Err(e) => Err(e),
        }
    } else if p.len() >= 1 {
        match new_spec(Ecosystem::Npm, p[0], None) {
            Ok(c) => Ok(
                Some(
                    AcquisitionView {
                        component: c,
                        description: "npx package execution "@ + id_of(c),
                    },
                ),
            ),
            Err(e) => Err(e),
        }
    } else {
        Ok(None)
    }
}

pub open spec fn uv_spec(args: Seq<Seq<char>>) -> Result<Option<AcquisitionView>, CoreError> {
    if args.len() > 0 && args[0] == "pip"@ {
        packages_spec(Ecosystem::Pypi, "uv pip"@, args.drop_first(), Verbs::Install)
    } else if args.len() > 0 && args[0] == "tool"@ {
        packages_spec(Ecosystem::Pypi, "uv tool"@, args.drop_first(), Verbs::Install)
    } else {
        packages_spec(Ecosystem::Pypi, "uv"@, args, Verbs::Add)
    }
}

pub open spec fn download_spec(manager: Seq<char>, args: Seq<Seq<char>>) -> Result<
    Option<AcquisitionView>,
    CoreError,
> {
    match first_address(args, 0) {
        None => Ok(None),
        Some(i) => match new_spec(Ecosystem::Url, args[i], None) {
            Ok(c) => Ok(
                Some(
                    AcquisitionView {
                        component: c,
                        description: manager + " direct download "@ + args[i],
                    },
                ),
            ),
            Err(e) => Err(e),
        },
    }
}

/// The acquisition that `program args` performs, if any.
pub open spec fn classify_spec(program: Seq<char>, args: Seq<Seq<char>>) -> Result<
    Option<AcquisitionView>,
    CoreError,
> {
    let name = command_name(program);
    if name == "git"@ {
        git_spec(args)
    } else if name == "gh"@ {
        gh_spec(args)
    } else if name == "npm"@ || name == "yarn"@ || name == "pnpm"@ || name == "bun"@ {
        packages_spec(Ecosystem::Npm, name, args, Verbs::AddInstallShort)
    } else if name == "npx"@ {
        npx_spec(args)
    } else if name == "pip"@ || name == "pip3"@ {
        packages_spec(Ecosystem::Pypi, name, args, Verbs::Install)
    } else if name == "uv"@ {
        uv_spec(args)
    } else if name == "poetry"@ {
        packages_spec(Ecosystem::Pypi, name, args, Verbs::AddInstall)
    } else if name == "cargo"@ {
        packages_spec(Ecosystem::Cargo, name, args, Verbs::AddInstall)
    } else if name == "go"@ {
        packages_spec(Ecosystem::Go, name, args, Verbs::GetInstall)
    } else if name == "curl"@ || name == "wget"@ {
        download_spec(name, args)
    } else {
        Ok(None)
    }
}

// ---------------------------------------------------------------------------
// Executable classification
// ---------------------------------------------------------------------------

/// The executable name of a program path.
pub fn command_name_of(program: &str) -> (out: String)
    ensures
        out@ == command_name(program@),
{
    let pc = chars_of(program);
    let k = path_key_exec(pc.as_slice());
    let up = chars_of("..");
    if k.len() > 0 && !chars_eq(k[k.len() - 1].as_slice(), up.as_slice()) {
        proof {
            assert(views(k@).last() == k@[k.len() - 1]@);
        }
        string_of(k[k.len() - 1].as_slice())
    } else {
        proof {
            if k.len() > 0 {
                assert(views(k@).last() == k@[k.len() - 1]@);
            }
        }
        program.to_string()
    }
}

fn arg_is_flag(a: &str) -> (r: bool)
    ensures
        r == is_flag(a@),
{
    let ac = chars_of(a);
    has_prefix_str(ac.as_slice(), "-")
}

proof fn lemma_two(x: Seq<char>, a: Seq<char>, b: Seq<char>)
    ensures
        seq![a, b].contains(x) <==> (x == a || x == b),
{
    if x == a {
        assert(seq![a, b][0] == a);
    }
    if x == b {
        assert(seq![a, b][1] == b);
    }
}

proof fn lemma_three(x: Seq<char>, a: Seq<char>, b: Seq<char>, c: Seq<char>)
    ensures
        seq![a, b, c].contains(x) <==> (x == a || x == b || x == c),
{
    if x == a {
        assert(seq![a, b, c][0] == a);
    }
    if x == b {
        assert(seq![a, b, c][1] == b);
    }
    if x == c {
        assert(seq![a, b, c][2] == c);
    }
}

proof fn lemma_one(x: Seq<char>, a: Seq<char>)
    ensures
        seq![a].contains(x) <==> x == a,
{
    if x == a {
        assert(seq![a][0] == a);
    }
}

fn arg_is_verb(k: Verbs, a: &str) -> (r: bool)
    ensures
        r == verb_words(k).contains(a@),
{
    match k {
        Verbs::Install => {
            proof {
                lemma_one(a@, "install"@);
            }
            str_eq(a, "install")
        },
        Verbs::AddInstall => {
            proof {
                lemma_two(a@, "add"@, "install"@);
            }
            str_eq(a, "add") || str_eq(a, "install")
        },
        Verbs::AddInstallShort => {
            proof {
                lemma_three(a@, "add"@, "install"@, "i"@);
            }
            str_eq(a, "add") || str_eq(a, "install") || str_eq(a, "i")
        },
        Verbs::GetInstall => {
            proof {
                lemma_two(a@, "get"@, "install"@);
            }
            str_eq(a, "get") || str_eq(a, "install")
        },
        Verbs::Add => {
            proof {
                lemma_one(a@, "add"@);
            }
            str_eq(a, "add")
        },
        Verbs::Clone => {
            proof {
                lemma_one(a@, "clone"@);
            }
            str_eq(a, "clone")
        },
    }
}

pub open spec fn index_result(r: Option<usize>, s: Option<int>) -> bool {
    match r {
        Some(i) => s == Some(i as int),
        None => s is None,
    }
}

fn first_verb_exec(args: &Vec<String>, k: Verbs, from: usize) -> (r: Option<usize>)
    ensures
        index_result(r, first_verb(strings_view(args@), k, from as int)),
        r matches Some(i) ==> from <= i < args@.len(),
{
    let ghost sv = strings_view(args@);
    let mut i: usize = from;
    while i < args.len()
        invariant
            from <= i,
            sv == strings_view(args@),
            first_verb(sv, k, from as int) == first_verb(sv, k, i as int),
        decreases args.len() - i,
    {
        proof {
            assert(sv[i as int] == args@[i as int]@);
        }
        if arg_is_verb(k, args[i].as_str()) {
            return Some(i);
        }
        i += 1;
    }
    None
}

fn first_positional_exec(args: &Vec<String>, from: usize) -> (r: Option<usize>)
    ensures
        index_result(r, first_positional(strings_view(args@), from as int)),
        r matches Some(i) ==> from <= i < args@.len(),
{
    let ghost sv = strings_view(args@);
    let mut i: usize = from;
    while i < args.len()
        invariant
            from <= i,
            sv == strings_view(args@),
            first_positional(sv, from as int) == first_positional(sv, i as int),
        decreases args.len() - i,
    {
        proof {
            assert(sv[i as int] == args@[i as int]@);
        }
        if !arg_is_flag(args[i].as_str()) {
            return Some(i);
        }
        i += 1;
    }
    None
}

fn first_address_exec(args: &Vec<String>) -> (r: Option<usize>)
    ensures
        index_result(r, first_address(strings_view(args@), 0)),
        r matches Some(i) ==> i < args@.len(),
{
    let ghost sv = strings_view(args@);
    let mut i: usize = 0;
    while i < args.len()
        invariant
            sv == strings_view(args@),
            first_address(sv, 0) == first_address(sv, i as int),
        decreases args.len() - i,
    {
        proof {
            assert(sv[i as int] == args@[i as int]@);
        }
        let ac = chars_of(args[i].as_str());
        if has_prefix_str(ac.as_slice(), "https://") || has_prefix_str(ac.as_slice(), "http://") {
            return Some(i);
        }
        i += 1;
    }
    None
}

fn first_repo_clone_exec(args: &Vec<String>) -> (r: Option<usize>)
    ensures
        index_result(r, first_repo_clone(strings_view(args@), 0)),
        r matches Some(i) ==> i + 1 < args@.len(),
{
    let ghost sv = strings_view(args@);
    let mut i: usize = 0;
    while i < args.len() && i + 1 < args.len()
        invariant
            sv == strings_view(args@),
            first_repo_clone(sv, 0) == first_repo_clone(sv, i as int),
        decreases args.len() - i,
    {
        proof {
            assert(sv[i as int] == args@[i as int]@);
            assert(sv[i + 1] == args@[i + 1]@);
        }
        if str_eq(args[i].as_str(), "repo") && str_eq(args[i + 1].as_str(), "clone") {
            return Some(i);
        }
        i += 1;
    }
    None
}

fn positionals_exec(args: &Vec<String>) -> (out: Vec<String>)
    ensures
        strings_view(out@) == positionals(strings_view(args@)),
{
    let ghost sv = strings_view(args@);
    let mut out: Vec<String> = Vec::new();
    let mut i: usize = 0;
    proof {
        assert(sv.take(0) =~= Seq::<Seq<char>>::empty());
        assert(strings_view(out@) =~= Seq::<Seq<char>>::empty());
    }
    while i < args.len()
        invariant
            i <= args.len(),
            sv == strings_view(args@),
            strings_view(out@) == positionals(sv.take(i as int)),
        decreases args.len() - i,
    {
        proof {
            assert(sv.take(i + 1).drop_last() =~= sv.take(i as int));
            assert(sv.take(i + 1).last() == args@[i as int]@);
        }
        if !arg_is_flag(args[i].as_str()) {
            let ghost before = strings_view(out@);
            out.push(args[i].clone());
            proof {
                assert(strings_view(out@) =~= before.push(args@[i as int]@));
            }
        }
        i += 1;
    }
    proof {
        assert(sv.take(args.len() as int) =~= sv);
    }
    out
}

fn tail_strings(args: &Vec<String>) -> (out: Vec<String>)
    requires
        args.len() > 0,
    ensures
        strings_view(out@) == strings_view(args@).drop_first(),
{
    let mut out: Vec<String> = Vec::new();
    let mut i: usize = 1;
    proof {
        assert(strings_view(out@) =~= strings_view(args@).subrange(1, 1));
    }
    while i < args.len()
        invariant
            1 <= i <= args.len(),
            strings_view(out@) == strings_view(args@).subrange(1, i as int),
        decreases args.len() - i,
    {
        let ghost before = strings_view(out@);
        out.push(args[i].clone());
        proof {
            assert(strings_view(out@) =~= before.push(args@[i as int]@));
            assert(strings_view(args@).subrange(1, i + 1) =~= strings_view(args@).subrange(
                1,
                i as int,
            ).push(args@[i as int]@));
        }
        i += 1;
    }
    proof {
        assert(strings_view(args@).subrange(1, args.len() as int) =~= strings_view(
            args@,
        ).drop_first());
    }
    out
}

proof fn lemma_package_name(p: Seq<char>, k: int)
    requires
        0 <= k <= p.len(),
        forall|j: int| 0 <= j < k ==> !version_sep(#[trigger] p[j]),
        k == p.len() || version_sep(p[k]),
    ensures
        package_name(p) == p.take(k),
    decreases p.len(),
{
    if p.len() > 0 {
        if k > 0 {
            assert forall|j: int| 0 <= j < k - 1 implies !version_sep(
                #[trigger] p.drop_first()[j],
            ) by {
                assert(p.drop_first()[j] == p[j + 1]);
            }
            if k < p.len() {
                assert(p.drop_first()[k - 1] == p[k]);
            }
            lemma_package_name(p.drop_first(), k - 1);
            assert(seq![p[0]] + p.drop_first().take(k - 1) =~= p.take(k));
        } else {
            assert(p.take(0) =~= Seq::<char>::empty());
        }
    } else {
        assert(p.take(k) =~= p);
    }
}

fn package_name_exec(p: &str) -> (out: String)
    ensures
        out@ == package_name(p@),
{
    let pc = chars_of(p);
    let mut k: usize = 0;
    while k < pc.len() && !(pc[k] == '=' || pc[k] == '<' || pc[k] == '>' || pc[k] == '~')
        invariant
            k <= pc.len(),
            forall|j: int| 0 <= j < k ==> !version_sep(#[trigger] pc@[j]),
        decreases pc.len() - k,
    {
        k += 1;
    }
    proof {
        lemma_package_name(pc@, k as int);
    }
    let cut = slice_chars(pc.as_slice(), 0, k);
    proof {
        assert(cut@ == pc@.take(k as int));
    }
    string_of(cut.as_slice())
}

fn describe(a: &str, b: &str, c: &str) -> (out: String)
    ensures
        out@ == a@ + b@ + c@,
{
    let mut v: Vec<char> = Vec::new();
    append_str(&mut v, a);
    append_str(&mut v, b);
    append_str(&mut v, c);
    proof {
        assert(v@ =~= a@ + b@ + c@);
    }
    string_of(v.as_slice())
}

/// The acquisition named by a clone source.
pub fn acquisition_from_source(source: &str, operation: &str) -> (r: Result<Acquisition, CoreError>)
    ensures
        match from_source_spec(source@, operation@) {
            Ok(a) => r matches Ok(x) && x@ == a,
            Err(e) => r matches Err(x) && x == e,
        },
{
    let sc = chars_of(source);
    let c = if has_char_exec(sc.as_slice(), ':') || has_prefix_str(sc.as_slice(), "https://") {
        parse_component(source)
    } else {
        ComponentRef::new(Ecosystem::Github, source, None)
    };
    match c {
        Ok(component) => {
            let id = component.id();
            let description = describe(operation, " ", id.as_str());
            Ok(Acquisition { component, description })
        },
        Err(e) => Err(e),
    }
}

fn lift_exec(r: Result<Acquisition, CoreError>) -> (out: Result<Option<Acquisition>, CoreError>)
    ensures
        acquisition_view(out) == lift(
            match r {
                Ok(a) => Ok(a@),
                Err(e) => Err(e),
            },
        ),
{
    match r {
        Ok(a) => Ok(Some(a)),
        Err(e) => Err(e),
    }
}

/// A package manager's install of the package argument after subcommand `k`.
pub fn classify_packages(ecosystem: Ecosystem, manager: &str, args: &Vec<String>, k: Verbs) -> (r:
    Result<Option<Acquisition>, CoreError>)
    ensures
        acquisition_view(r) == packages_spec(ecosystem, manager@, strings_view(args@), k),
{
    let ghost sv = strings_view(args@);
    let n = args.len();
    let i = match first_verb_exec(args, k, 0) {
        None => return Ok(None),
        Some(i) => i,
    };
    let j = match first_positional_exec(args, i + 1) {
        None => return Ok(None),
        Some(j) => j,
    };
    proof {
        assert(sv[j as int] == args@[j as int]@);
    }
    let package = package_name_exec(args[j].as_str());
    match ComponentRef::new(ecosystem, package.as_str(), None) {
        Ok(component) => {
            let id = component.id();
            let description = describe(manager, " acquisition ", id.as_str());
            Ok(Some(Acquisition { component, description }))
        },
        Err(e) => Err(e),
    }
}

/// A JavaScript package manager's `add`, `install` or `i`.
pub fn classify_js(manager: &str, args: &Vec<String>) -> (r: Result<Option<Acquisition>, CoreError>)
    ensures
        acquisition_view(r) == packages_spec(
            Ecosystem::Npm,
            manager@,
            strings_view(args@),
            Verbs::AddInstallShort,
        ),
{
    classify_packages(Ecosystem::Npm, manager, args, Verbs::AddInstallShort)
}

pub fn classify_git(args: &Vec<String>) -> (r: Result<Option<Acquisition>, CoreError>)
    ensures
        acquisition_view(r) == git_spec(strings_view(args@)),
{
    let ghost sv = strings_view(args@);
    let n = args.len();
    let i = match first_verb_exec(args, Verbs::Clone, 0) {
        None => return Ok(None),
        Some(i) => i,
    };
    let j = match first_positional_exec(args, i + 1) {
        None => return Ok(None),
        Some(j) => j,
    };
    proof {
        assert(sv[j as int] == args@[j as int]@);
    }
    lift_exec(acquisition_from_source(args[j].as_str(), "git clone"))
}

pub fn classify_gh(args: &Vec<String>) -> (r: Result<Option<Acquisition>, CoreError>)
    ensures
        acquisition_view(r) == gh_spec(strings_view(args@)),
{
    let ghost sv = strings_view(args@);
    let i = match first_repo_clone_exec(args) {
        None => return Ok(None),
        Some(i) => i,
    };
    if args.len() - i > 2 {
        proof {
            assert(sv[i + 2] == args@[i + 2]@);
        }
        lift_exec(acquisition_from_source(args[i + 2].as_str(), "gh repo clone"))
    } else {
        Ok(None)
    }
}

pub fn classify_npx(args: &Vec<String>) -> (r: Result<Option<Acquisition>, CoreError>)
    ensures
        acquisition_view(r) == npx_spec(strings_view(args@)),
{
    let p = positionals_exec(args);
    let ghost pv = strings_view(p@);
    if p.len() >= 3 {
        proof {
            assert(pv[0] == p@[0]@);
            assert(pv[1] == p@[1]@);
            assert(pv[2] == p@[2]@);
        }
        let third = chars_of(p[2].as_str());
        if (str_eq(p[0].as_str(), "skills") || str_eq(p[0].as_str(), "skill")) && str_eq(
            p[1].as_str(),
            "add",
        ) && has_char_exec(third.as_slice(), '/') {
            return match ComponentRef::new(Ecosystem::Skill, p[2].as_str(), None) {
                Ok(component) => {
                    let description = describe("agent skill installation ", p[2].as_str(), "");
                    proof {
                        reveal_strlit("");
                        assert(description@ =~= "agent skill installation "@ + pv[2]);
                    }
                    Ok(Some(Acquisition { component, description }))
                },
                Err(e) => Err(e),
            };
        }
    }
    if p.len() >= 1 {
        proof {
            assert(pv[0] == p@[0]@);
        }
        match ComponentRef::new(Ecosystem::Npm, p[0].as_str(), None) {
            Ok(component) => {
                let id = component.id();
                let description = describe("npx package execution ", id.as_str(), "");
                proof {
                    reveal_strlit("");
                    assert(description@ =~= "npx package execution "@ + id@);
                }
                Ok(Some(Acquisition { component, description }))
            },
            Err(e) => Err(e),
        }
    } else {
        Ok(None)
    }
}

pub fn classify_uv(args: &Vec<String>) -> (r: Result<Option<Acquisition>, CoreError>)
    ensures
        acquisition_view(r) == uv_spec(strings_view(args@)),
{
    let ghost sv = strings_view(args@);
    if args.len() > 0 {
        proof {
            assert(sv[0] == args@[0]@);
        }
        if str_eq(args[0].as_str(), "pip") {
            let rest = tail_strings(args);
            return classify_packages(Ecosystem::Pypi, "uv pip", &rest, Verbs::Install);
        }
        if str_eq(args[0].as_str(), "tool") {
            let rest = tail_strings(args);
            return classify_packages(Ecosystem::Pypi, "uv tool", &rest, Verbs::Install);
        }
    }
    classify_packages(Ecosystem::Pypi, "uv", args, Verbs::Add)
}

pub fn classify_download(manager: &str, args: &Vec<String>) -> (r: Result<
    Option<Acquisition>,
    CoreError,
>)
    ensures
        acquisition_view(r) == download_spec(manager@, strings_view(args@)),
{
    let ghost sv = strings_view(args@);
    let i = match first_address_exec(args) {
        None => return Ok(None),
        Some(i) => i,
    };
    proof {
        assert(sv[i as int] == args@[i as int]@);
    }
    match ComponentRef::new(Ecosystem::Url, args[i].as_str(), None) {
        Ok(component) => {
            let description = describe(manager, " direct download ", args[i].as_str());
            Ok(Some(Acquisition { component, description }))
        },
        Err(e) => Err(e),
    }
}

/// Recognises the acquisition, if any, that `program args` performs.
pub fn classify_command(program: &str, args: &Vec<String>) -> (r: Result<
    Option<Acquisition>,
    CoreError,
>)
    ensures
        acquisition_view(r) == classify_spec(program@, strings_view(args@)),
{
    let name = command_name_of(program);
    let n = name.as_str();
    if str_eq(n, "git") {
        classify_git(args)
    } else if str_eq(n, "gh") {
        classify_gh(args)
    } else if str_eq(n, "npm") || str_eq(n, "yarn") || str_eq(n, "pnpm") || str_eq(n, "bun") {
        classify_js(n, args)
    } else if str_eq(n, "npx") {
        classify_npx(args)
    } else if str_eq(n, "pip") || str_eq(n, "pip3") {
        classify_packages(Ecosystem::Pypi, n, args, Verbs::Install)
    } else if str_eq(n, "uv") {
        classify_uv(args)
    } else if str_eq(n, "poetry") {
        classify_packages(Ecosystem::Pypi, n, args, Verbs::AddInstall)
    } else if str_eq(n, "cargo") {
        classify_packages(Ecosystem::Cargo, n, args, Verbs::AddInstall)
    } else if str_eq(n, "go") {
        classify_packages(Ecosystem::Go, n, args, Verbs::GetInstall)
    } else if str_eq(n, "curl") || str_eq(n, "wget") {
        classify_download(n, args)
    } else {
        Ok(None)
    }
}


// ---------------------------------------------------------------------------
// Laws
// ---------------------------------------------------------------------------

/// A program named without any directory is its own command name.
pub proof fn law_plain_program_name(w: Seq<char>)
    requires
        w.len() > 0,
        w != "."@,
        w != ".."@,
        forall|i: int| 0 <= i < w.len() ==> w[i] != '/',
    ensures
        command_name(w) == w,
{
    reveal_strlit(".");
    reveal_strlit("..");
    lemma_split_single(w, '/');
    let parts = seq![w];
    assert(parts.drop_last() =~= Seq::<Seq<char>>::empty());
    assert(normal_parts(parts) == normal_parts(parts.drop_last()).push(w));
    assert(path_key(w) =~= seq![w]);
}

/// Installing a package with npm, yarn, pnpm or bun is an npm acquisition
/// of that package: when the arguments start with `add`, `install` or `i`
/// followed by a package name (no flag, no version constraint), the command
/// names exactly that package, described with the manager's name.
pub proof fn law_js_install_is_acquisition(
    program: Seq<char>,
    verb: Seq<char>,
    package: Seq<char>,
    rest: Seq<Seq<char>>,
)
    requires
        command_name(program) == "npm"@ || command_name(program) == "yarn"@ || command_name(
            program,
        ) == "pnpm"@ || command_name(program) == "bun"@,
        verb == "add"@ || verb == "install"@ || verb == "i"@,
        !starts_with(package, "-"@),
        forall|i: int|
            0 <= i < package.len() ==> package[i] != '=' && package[i] != '<' && package[i] != '>'
                && package[i] != '~',
        new_spec(Ecosystem::Npm, package, None) is Ok,
    ensures
        classify_spec(program, seq![verb, package] + rest) == Ok::<
            Option<AcquisitionView>,
            CoreError,
        >(
            Some(
                AcquisitionView {
                    component: new_spec(Ecosystem::Npm, package, None)->Ok_0,
                    description: command_name(program) + " acquisition "@ + id_of(
                        new_spec(Ecosystem::Npm, package, None)->Ok_0,
                    ),
                },
            ),
        ),
{
    reveal_strlit("npm");
    reveal_strlit("yarn");
    reveal_strlit("pnpm");
    reveal_strlit("bun");
    reveal_strlit("git");
    reveal_strlit("gh");
    reveal_strlit("add");
    reveal_strlit("install");
    reveal_strlit("i");
    let args = seq![verb, package] + rest;
    assert(args[0] == verb);
    assert(args[1] == package);
    assert(verb_words(Verbs::AddInstallShort)[0] == "add"@);
    assert(verb_words(Verbs::AddInstallShort)[1] == "install"@);
    assert(verb_words(Verbs::AddInstallShort)[2] == "i"@);
    assert(verb_words(Verbs::AddInstallShort).contains(verb));
    assert(first_verb(args, Verbs::AddInstallShort, 0) == Some(0int));
    assert(first_positional(args, 1) == Some(1int));
    lemma_package_name(package, package.len() as int);
    assert(package.take(package.len() as int) =~= package);
    let name = command_name(program);
    assert(name != "git"@ && name != "gh"@) by {
        assert("git"@.len() == 3 && "gh"@.len() == 2 && "npm"@.len() == 3 && "bun"@.len() == 3);
        assert("yarn"@.len() == 4 && "pnpm"@.len() == 4);
        if name == "npm"@ {
            assert("npm"@[0] != "git"@[0]);
        }
        if name == "bun"@ {
            assert("bun"@[0] != "git"@[0]);
        }
    }
}

} // verus!
