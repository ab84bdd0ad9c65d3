//! Which vault opens when the program starts.

use vstd::prelude::*;

use crate::paths::{is_same_path, join};
use crate::text::{chars_of, concat2, copy_opt, starts_with, str_eq, string_of_range, trim};

verus! {

broadcast use vstd::string::group_string_axioms;

use crate::paths::{joined_path, same_path};
use crate::text::{opt_chars, starts_with_chars, texts, trim_end_chars, trimmed, white_space};

/// Where the program keeps its files below the home directory.
pub const APP_SUPPORT_DIR: &'static str = "Library/Application Support/Ocean GUI";

/// The file that names the vault opened last.
pub const LAST_WORKSPACE_FILE: &'static str = "last-workspace";

/// A text where it is not empty.
pub open spec fn non_empty(value: Option<Seq<char>>) -> Option<Seq<char>> {
    match value {
        Some(s) => if s.len() > 0 {
            Some(s)
        } else {
            None
        },
        None => None,
    }
}

/// The vault that the arguments from `from` on name: by `--workspace` and a path that is
/// not empty, or by `--workspace=` and a path in one argument.
pub open spec fn root_in_args(args: Seq<Seq<char>>, from: int) -> Option<Seq<char>>
    decreases args.len() + 1 - from,
{
    if from < 0 || from >= args.len() {
        None
    } else if args[from] == "--workspace"@ {
        if from + 1 < args.len() && args[from + 1].len() > 0 {
            Some(args[from + 1])
        } else {
            root_in_args(args, from + 2)
        }
    } else if starts_with_chars(args[from], "--workspace="@) && args[from].len()
        > "--workspace="@.len() {
        Some(args[from].skip("--workspace="@.len() as int))
    } else {
        root_in_args(args, from + 1)
    }
}

/// The vault that the arguments name, or the environment where they name none.
pub open spec fn configured_root(args: Seq<Seq<char>>, env: Option<Seq<char>>) -> Option<Seq<char>> {
    match root_in_args(args, 0) {
        Some(root) => Some(root),
        None => non_empty(env),
    }
}

/// The vault where nothing names one: the current directory, or the home directory where
/// the program was started at the root.
pub open spec fn default_root(current: Seq<char>, home: Option<Seq<char>>) -> Seq<char> {
    match non_empty(home) {
        Some(home) => if same_path(current, "/"@) {
            home
        } else {
            current
        },
        None => current,
    }
}

/// A text where it is not empty.
#[must_use]
pub fn non_empty_path(value: Option<String>) -> (r: Option<String>)
    ensures
        opt_chars(r) == non_empty(opt_chars(value)),
{
    match value {
        Some(s) => if s.is_empty() {
            None
        } else {
            Some(s)
        },
        None => None,
    }
}

/// The vault that the arguments or the environment name.
#[must_use]
pub fn configured_workspace_root(args: &Vec<String>, env_root: Option<String>) -> (r: Option<
    String,
>)
    ensures
        opt_chars(r) == configured_root(texts(args@), opt_chars(env_root)),
{
    let mut i: usize = 0;
    let total: usize = args.len();
    let flag = "--workspace=";
    while i < total
        invariant
            total == args@.len(),
            flag@ == "--workspace="@,
            root_in_args(texts(args@), i as int) == root_in_args(texts(args@), 0),
        decreases total - i,
    {
        assert(texts(args@)[i as int] == args@[i as int]@);
        if str_eq(args[i].as_str(), "--workspace") {
            if i + 1 >= total {
                i = total;
            } else {
                assert(texts(args@)[i + 1] == args@[i + 1]@);
                if !args[i + 1].is_empty() {
                    return Some(args[i + 1].clone());
                }
                assert(root_in_args(texts(args@), i + 2) == root_in_args(texts(args@), i as int));
                if i + 1 == total - 1 {
                    i = total;
                } else {
                    i += 2;
                }
            }
        } else {
            let chars: Vec<char> = chars_of(args[i].as_str());
            let skipped: usize = chars_of(flag).len();
            if starts_with(args[i].as_str(), flag) && chars.len() > skipped {
                let r = string_of_range(&chars, skipped, chars.len());
                assert(r@ =~= args@[i as int]@.skip(skipped as int));
                return Some(r);
            }
            i += 1;
        }
    }
    non_empty_path(env_root)
}

/// The vault where nothing names one.
#[must_use]
pub fn default_workspace_root(current_dir: String, home_root: Option<String>) -> (r: String)
    ensures
        r@ == default_root(current_dir@, opt_chars(home_root)),
{
    let home = non_empty_path(home_root);
    match home {
        Some(home) => if is_same_path(current_dir.as_str(), "/") {
            home
        } else {
            current_dir
        },
        None => current_dir,
    }
}

/// The vault to open at the start: the one that was named, the one opened last where it is
/// still there, or the default.
#[must_use]
pub fn initial_workspace_root(
    args: &Vec<String>,
    env_root: Option<String>,
    remembered: Option<String>,
    current_dir: String,
    home_root: Option<String>,
) -> (r: String)
    ensures
        match (configured_root(texts(args@), opt_chars(env_root)), remembered) {
            (Some(root), _) => r@ == root,
            (None, Some(root)) => r@ == root@,
            (None, None) => r@ == default_root(current_dir@, opt_chars(home_root)),
        },
{
    match configured_workspace_root(args, env_root) {
        Some(root) => root,
        None => match remembered {
            Some(root) => root,
            None => default_workspace_root(current_dir, home_root),
        },
    }
}

/// The file that names the vault opened last, where there is a home directory.
#[must_use]
pub fn last_workspace_path(home: &Option<String>) -> (r: Option<String>)
    ensures
        opt_chars(r) == match non_empty(opt_chars(*home)) {
            Some(home) => Some(
                joined_path(joined_path(home, APP_SUPPORT_DIR@), LAST_WORKSPACE_FILE@),
            ),
            None => None,
        },
{
    match non_empty_path(copy_opt(home)) {
        Some(home) => {
            let directory = join(home.as_str(), APP_SUPPORT_DIR);
            Some(join(directory.as_str(), LAST_WORKSPACE_FILE))
        },
        None => None,
    }
}

/// What the file holds for a vault.
pub open spec fn remembered_text(root: Seq<char>) -> Seq<char> {
    root + "\n"@
}

/// The vault that the file names.
pub open spec fn remembered_root(text: Seq<char>) -> Option<Seq<char>> {
    non_empty(Some(trimmed(text)))
}

/// What the file holds for a vault.
#[must_use]
pub fn last_workspace_text(root: &str) -> (r: String)
    ensures
        r@ == remembered_text(root@),
{
    concat2(root, "\n")
}

/// The vault that the file names.
#[must_use]
pub fn last_workspace_in(text: &str) -> (r: Option<String>)
    ensures
        opt_chars(r) == remembered_root(text@),
{
    non_empty_path(Some(trim(text)))
}

/// What was remembered of a vault names that vault again, where its path has no white space
/// at its ends.
pub proof fn law_remembered_vault_comes_back(root: Seq<char>)
    requires
        root.len() > 0,
        !white_space(root[0]),
        !white_space(root.last()),
    ensures
        remembered_root(remembered_text(root)) == Some(root),
{
    reveal_strlit("\n");
    let text = remembered_text(root);
    assert(text[0] == root[0]);
    assert(text.last() == '\n');
    assert(text.drop_last() =~= root);
    assert(trim_end_chars(text) == trim_end_chars(text.drop_last()));
}

/// An argument names the vault by the flag and the path behind it, or by both in one; other
/// arguments are passed over. An empty path names none.
pub proof fn law_first_named_vault_is_taken(args: Seq<Seq<char>>, from: int, path: Seq<char>)
    requires
        0 <= from < args.len(),
    ensures
        args[from] == "--workspace"@ && from + 1 < args.len() && args[from + 1].len() > 0
            ==> root_in_args(args, from) == Some(args[from + 1]),
        args[from] == "--workspace="@ + path && path.len() > 0 ==> root_in_args(args, from) == Some(
            path,
        ),
        args[from] != "--workspace"@ && !"--workspace="@.is_prefix_of(args[from]) ==> root_in_args(
            args,
            from,
        ) == root_in_args(args, from + 1),
        args[from] == "--workspace"@ && from + 1 == args.len() ==> root_in_args(args, from) is None,
{
    reveal_strlit("--workspace");
    reveal_strlit("--workspace=");
    reveal_with_fuel(root_in_args, 2);
    let flag = "--workspace="@;
    if args[from] == flag + path && path.len() > 0 {
        assert(args[from].len() > "--workspace"@.len());
        assert(args[from].take(flag.len() as int) =~= flag);
        assert(args[from].skip(flag.len() as int) =~= path);
    }
    if starts_with_chars(args[from], flag) {
        assert(args[from].take(flag.len() as int) =~= args[from].subrange(0, flag.len() as int));
        assert(flag.is_prefix_of(args[from]));
    }
}

/// The arguments count before the environment, and nothing that is empty counts. Without
/// either the current directory is the vault, unless that is the root and there is a home.
pub proof fn law_arguments_count_before_the_environment(
    args: Seq<Seq<char>>,
    env: Option<Seq<char>>,
    current: Seq<char>,
    home: Option<Seq<char>>,
)
    ensures
        root_in_args(args, 0) is Some ==> configured_root(args, env) == root_in_args(args, 0),
        root_in_args(args, 0) is None ==> (env matches Some(path) ==> (path.len() > 0
            ==> configured_root(args, env) == Some(path)) && (path.len() == 0 ==> configured_root(
            args,
            env,
        ) is None)),
        root_in_args(args, 0) is None && env is None ==> configured_root(args, env) is None,
        !same_path(current, "/"@) ==> default_root(current, home) == current,
        same_path(current, "/"@) ==> (home matches Some(path) ==> (path.len() > 0 ==> default_root(
            current,
            home,
        ) == path)),
        home is None ==> default_root(current, home) == current,
{
}

} // verus!
