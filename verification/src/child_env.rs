//! The environment of commands that run in somebody else's repository.
//!
//! Started through a package manager, the program inherits variables that point at
//! its own project, and everything it starts inherits them from it. A command in
//! another repository must not see them.

use vstd::prelude::*;

use crate::text;

verus! {

/// What becomes of one variable.
#[derive(Debug, PartialEq, Eq)]
pub enum EnvAction {
    Remove,
    Assign(String),
}

/// Whether a variable is one by which a package manager tells what it runs for.
pub open spec fn is_injected(key: Seq<char>) -> bool {
    key == "BERRY_BIN_FOLDER"@ || key == "PROJECT_CWD"@ || key == "INIT_CWD"@
        || "npm_"@.is_prefix_of(key)
}

/// Whether a flag of node's takes the path of something to load.
pub open spec fn loads(flag: Seq<char>) -> bool {
    flag == "--require"@ || flag == "-r"@ || flag == "--loader"@ || flag
        == "--experimental-loader"@ || flag == "--import"@
}

/// Whether a path is that of the package manager's runtime.
pub open spec fn is_runtime(value: Seq<char>) -> bool {
    text::contains(value, ".pnp."@)
}

/// The options that are left without those that load the runtime.
pub open spec fn kept_options(options: Seq<Seq<char>>) -> Seq<Seq<char>>
    decreases options.len(),
{
    if options.len() == 0 {
        seq![]
    } else {
        let first = options[0];
        let eq = text::find_char(first, '=');
        if eq < first.len() && loads(first.take(eq)) && is_runtime(first.skip(eq + 1)) {
            kept_options(options.drop_first())
        } else if eq >= first.len() && loads(first) && options.len() > 1 && is_runtime(options[1]) {
            kept_options(options.skip(2))
        } else {
            seq![first] + kept_options(options.drop_first())
        }
    }
}

/// What is left of `NODE_OPTIONS`; `None` where that is nothing.
pub open spec fn stripped(value: Seq<char>) -> Option<Seq<char>> {
    let kept = kept_options(text::words(value));
    if kept.len() == 0 {
        None
    } else {
        Some(text::join(kept, " "@))
    }
}

/// What becomes of a variable: `None` where it stays, else its new value, if it has
/// one.
pub open spec fn change_of(key: Seq<char>, value: Seq<char>) -> Option<Option<Seq<char>>> {
    if key == "NODE_OPTIONS"@ {
        match stripped(value) {
            Some(s) => if s == value {
                None
            } else {
                Some(Some(s))
            },
            None => Some(None),
        }
    } else if is_injected(key) {
        Some(None)
    } else {
        None
    }
}

/// What becomes of the variables that do not stay.
pub open spec fn changes(vars: Seq<(String, String)>) -> Seq<(Seq<char>, Option<Seq<char>>)>
    decreases vars.len(),
{
    if vars.len() == 0 {
        seq![]
    } else {
        let before = changes(vars.drop_last());
        match change_of(vars.last().0@, vars.last().1@) {
            Some(c) => before.push((vars.last().0@, c)),
            None => before,
        }
    }
}

/// An action by what it does.
pub open spec fn effect(a: EnvAction) -> Option<Seq<char>> {
    match a {
        EnvAction::Remove => None,
        EnvAction::Assign(s) => Some(s@),
    }
}

/// Overrides by what they do.
pub open spec fn effects(v: Seq<(String, EnvAction)>) -> Seq<(Seq<char>, Option<Seq<char>>)> {
    v.map_values(|p: (String, EnvAction)| (p.0@, effect(p.1)))
}

fn is_injected_pm_var(key: &str) -> (r: bool)
    ensures
        r == is_injected(key@),
{
    text::same(key, "BERRY_BIN_FOLDER") || text::same(key, "PROJECT_CWD") || text::same(
        key,
        "INIT_CWD",
    ) || text::has_prefix(key, "npm_")
}

fn is_loader_flag(flag: &str) -> (r: bool)
    ensures
        r == loads(flag@),
{
    text::same(flag, "--require") || text::same(flag, "-r") || text::same(flag, "--loader")
        || text::same(flag, "--experimental-loader") || text::same(flag, "--import")
}

fn is_pnp_path(value: &str) -> (r: bool)
    ensures
        r == is_runtime(value@),
{
    text::holds(value, ".pnp.")
}

/// What is left of `NODE_OPTIONS` without the options that load the package
/// manager's runtime; `None` where that is nothing.
pub fn strip_pnp_from_node_options(value: &str) -> (r: Option<String>)
    ensures
        text::maybe(r) == stripped(value@),
{
    let tokens = text::split_words(value);
    let ghost all = text::words(value@);
    let mut kept: Vec<String> = Vec::new();
    let mut i: usize = 0;
    assert(all.skip(0) =~= all);
    assert(text::views(kept@) + kept_options(all) =~= kept_options(all));
    while i < tokens.len()
        invariant
            i <= tokens.len(),
            text::views(tokens@) == all,
            text::views(kept@) + kept_options(all.skip(i as int)) == kept_options(all),
        decreases tokens.len() - i,
    {
        let ghost here = all.skip(i as int);
        let ghost had = text::views(kept@);
        let tok = &tokens[i];
        let v = text::chars_of(tok);
        let eq: usize = text::seek(&v, 0, '=');
        proof {
            assert(here[0] == tok@);
            assert(here.drop_first() =~= all.skip(i + 1));
            assert(v@.skip(0) =~= v@);
        }
        if eq < v.len() {
            let flag = text::piece(&v, 0, eq);
            let val = text::piece(&v, eq + 1, v.len());
            assert(flag@ =~= tok@.take(eq as int));
            assert(val@ =~= tok@.skip(eq + 1));
            if is_loader_flag(&flag) && is_pnp_path(&val) {
                i = i + 1;
                continue ;
            }
        } else if is_loader_flag(tok) && i + 1 < tokens.len() {
            assert(here[1] == tokens@[i + 1]@);
            if is_pnp_path(&tokens[i + 1]) {
                assert(here.skip(2) =~= all.skip(i + 2));
                i = i + 2;
                continue ;
            }
        }
        kept.push(tok.clone());
        assert(text::views(kept@) =~= had.push(tok@));
        assert(had.push(tok@) + kept_options(all.skip(i + 1)) =~= had + (seq![tok@] + kept_options(
            all.skip(i + 1),
        )));
        i = i + 1;
    }
    assert(kept_options(all.skip(i as int)) =~= seq![]);
    assert(text::views(kept@) =~= kept_options(all));
    if kept.len() == 0 {
        None
    } else {
        Some(text::joined(&kept, " "))
    }
}

/// What is to be changed in an environment for a command in another repository.
pub fn child_env_overrides(vars: Vec<(String, String)>) -> (r: Vec<(String, EnvAction)>)
    ensures
        effects(r@) == changes(vars@),
{
    let mut overrides: Vec<(String, EnvAction)> = Vec::new();
    let mut i: usize = 0;
    assert(effects(overrides@) =~= changes(vars@.take(0)));
    while i < vars.len()
        invariant
            i <= vars.len(),
            effects(overrides@) == changes(vars@.take(i as int)),
        decreases vars.len() - i,
    {
        let ghost had = effects(overrides@);
        proof {
            assert(vars@.take(i + 1).drop_last() =~= vars@.take(i as int));
            assert(vars@.take(i + 1).last() == vars@[i as int]);
        }
        let key = &vars[i].0;
        let value = &vars[i].1;
        let action = if text::same(key, "NODE_OPTIONS") {
            match strip_pnp_from_node_options(value) {
                None => Some(EnvAction::Remove),
                Some(s) => if text::same(&s, value) {
                    None
                } else {
                    Some(EnvAction::Assign(s))
                },
            }
        } else if is_injected_pm_var(key) {
            Some(EnvAction::Remove)
        } else {
            None
        };
        if let Some(a) = action {
            let ghost e = effect(a);
            overrides.push((key.clone(), a));
            assert(effects(overrides@) =~= had.push((key@, e)));
        }
        i = i + 1;
    }
    assert(vars@.take(i as int) =~= vars@);
    overrides
}

proof fn lemma_skip_contains(s: Seq<char>, k: int, p: Seq<char>)
    requires
        0 <= k <= s.len(),
        text::contains(s.skip(k), p),
    ensures
        text::contains(s, p),
{
    let i = choose|i: int| text::occurs_at(s.skip(k), p, i);
    assert(s.skip(k).subrange(i, i + p.len()) =~= s.subrange(i + k, i + k + p.len()));
    assert(text::occurs_at(s, p, i + k));
}

/// Options in which the package manager's runtime does not occur are kept, all of
/// them and in their order.
pub proof fn other_options_are_kept(options: Seq<Seq<char>>)
    requires
        forall|i: int| 0 <= i < options.len() ==> !is_runtime(#[trigger] options[i]),
    ensures
        kept_options(options) == options,
    decreases options.len(),
{
    if options.len() > 0 {
        let first = options[0];
        let eq = text::find_char(first, '=');
        let rest = options.drop_first();
        assert(!is_runtime(first));
        if eq < first.len() && is_runtime(first.skip(eq + 1)) {
            text::lemma_find_char_bounds(first, '=');
            lemma_skip_contains(first, eq + 1, ".pnp."@);
        }
        assert(forall|i: int| 0 <= i < rest.len() ==> !is_runtime(#[trigger] rest[i]));
        other_options_are_kept(rest);
        assert(seq![first] + rest =~= options);
    } else {
        assert(kept_options(options) =~= options);
    }
}

/// A variable that no package manager sets is not touched.
pub proof fn other_variables_are_inherited(vars: Seq<(String, String)>, i: int)
    requires
        0 <= i < changes(vars).len(),
    ensures
        changes(vars)[i].0 == "NODE_OPTIONS"@ || is_injected(changes(vars)[i].0),
    decreases vars.len(),
{
    if vars.len() > 0 {
        let before = changes(vars.drop_last());
        if i < before.len() {
            other_variables_are_inherited(vars.drop_last(), i);
        }
    }
}

/// Every variable that a package manager sets is removed.
pub proof fn injected_variables_are_removed(vars: Seq<(String, String)>, i: int)
    requires
        0 <= i < vars.len(),
        is_injected(vars[i].0@),
    ensures
        changes(vars).contains((vars[i].0@, None::<Seq<char>>)),
    decreases vars.len(),
{
    let key = vars[i].0@;
    let mine = (key, None::<Seq<char>>);
    let before = changes(vars.drop_last());
    if i == vars.len() - 1 {
        reveal_strlit("NODE_OPTIONS");
        reveal_strlit("BERRY_BIN_FOLDER");
        reveal_strlit("PROJECT_CWD");
        reveal_strlit("INIT_CWD");
        reveal_strlit("npm_");
        if key == "NODE_OPTIONS"@ {
            assert("NODE_OPTIONS"@[0] == 'N');
            assert("npm_"@[0] == 'n');
            assert("BERRY_BIN_FOLDER"@[0] == 'B');
            assert("PROJECT_CWD"@[0] == 'P');
            assert("INIT_CWD"@[0] == 'I');
            assert(key.subrange(0, 4)[0] == key[0]);
            assert(false);
        }
        assert(changes(vars) == before.push(mine));
        assert(changes(vars)[before.len() as int] == mine);
    } else {
        injected_variables_are_removed(vars.drop_last(), i);
        let k = choose|k: int| 0 <= k < before.len() && before[k] == mine;
        assert(changes(vars)[k] == mine);
    }
}

/// A flag that loads something into the runtime goes with what it loads, where that is
/// the package manager's own hook, whether it is given in one word or in two; what comes
/// behind is read on.
pub proof fn a_loaded_hook_goes(flag: Seq<char>, value: Seq<char>, rest: Seq<Seq<char>>)
    requires
        flag == "--require"@ || flag == "-r"@ || flag == "--loader"@ || flag
            == "--experimental-loader"@ || flag == "--import"@,
        text::contains(value, ".pnp."@),
    ensures
        kept_options(seq![flag, value] + rest) == kept_options(rest),
        kept_options(seq![flag + seq!['='] + value] + rest) == kept_options(rest),
{
    reveal_strlit("--require");
    reveal_strlit("-r");
    reveal_strlit("--loader");
    reveal_strlit("--experimental-loader");
    reveal_strlit("--import");
    assert forall|i: int| 0 <= i < flag.len() implies flag[i] != '=' by {}
    text::lemma_find_char(flag, '=', flag.len() as int);
    let two = seq![flag, value] + rest;
    assert(two.skip(2) =~= rest);
    assert(two[1] == value);
    let word = flag + seq!['='] + value;
    let one = seq![word] + rest;
    text::lemma_find_char(word, '=', flag.len() as int);
    assert(word.take(flag.len() as int) =~= flag);
    assert(word.skip(flag.len() as int + 1) =~= value);
    assert(one.drop_first() =~= rest);
}

/// Any other option stays: one that loads nothing, and one that loads something else.
pub proof fn another_option_stays(option: Seq<char>, rest: Seq<Seq<char>>)
    requires
        !text::contains(option, ".pnp."@),
        option != "--require"@ && option != "-r"@ && option != "--loader"@ && option
            != "--experimental-loader"@ && option != "--import"@,
    ensures
        kept_options(seq![option] + rest) == seq![option] + kept_options(rest),
{
    let all = seq![option] + rest;
    assert(all.drop_first() =~= rest);
    text::lemma_find_char_bounds(option, '=');
    let eq = text::find_char(option, '=');
    if eq < option.len() {
        let v = option.skip(eq + 1);
        if is_runtime(v) {
            let i = choose|i: int| text::occurs_at(v, ".pnp."@, i);
            reveal_strlit(".pnp.");
            assert(option.subrange(eq + 1 + i, eq + 1 + i + 5) =~= v.subrange(i, i + 5));
            assert(text::occurs_at(option, ".pnp."@, eq + 1 + i));
        }
    }
}

/// Of a process's variables, those that the package manager set go, the runtime's
/// options lose what loads its hook, and every other is inherited as it is.
pub proof fn what_becomes_of_a_variable(key: Seq<char>, value: Seq<char>)
    ensures
        key == "BERRY_BIN_FOLDER"@ || key == "PROJECT_CWD"@ || key == "INIT_CWD"@
            || "npm_"@.is_prefix_of(key) ==> change_of(key, value) == Some(None::<Seq<char>>),
        key != "BERRY_BIN_FOLDER"@ && key != "PROJECT_CWD"@ && key != "INIT_CWD"@
            && !"npm_"@.is_prefix_of(key) && key != "NODE_OPTIONS"@ ==> change_of(key, value)
            is None,
        text::words(value).len() == 0 ==> change_of("NODE_OPTIONS"@, value) == Some(
            None::<Seq<char>>,
        ),
        (change_of("NODE_OPTIONS"@, value) matches Some(Some(s)) ==> s != value),
{
    reveal_strlit("NODE_OPTIONS");
    reveal_strlit("BERRY_BIN_FOLDER");
    reveal_strlit("PROJECT_CWD");
    reveal_strlit("INIT_CWD");
    reveal_strlit("npm_");
    assert("NODE_OPTIONS"@.len() == 12 && "BERRY_BIN_FOLDER"@.len() == 16 && "PROJECT_CWD"@.len()
        == 11 && "INIT_CWD"@.len() == 8);
    if "npm_"@.is_prefix_of("NODE_OPTIONS"@) {
        assert("NODE_OPTIONS"@.take(4)[0] == 'n');
    }
    if "npm_"@.is_prefix_of(key) {
        assert(key.take(4)[0] == 'n');
        assert(key[0] == 'n');
    }
    assert(kept_options(Seq::<Seq<char>>::empty()).len() == 0);
}

/// Every variable that is to be changed is changed, and none that is not.
pub proof fn each_variable_is_looked_at(vars: Seq<(String, String)>, i: int)
    requires
        0 <= i < vars.len(),
    ensures
        change_of(vars[i].0@, vars[i].1@) matches Some(c) ==> changes(vars).contains(
            (vars[i].0@, c),
        ),
        changes(vars).len() <= vars.len(),
    decreases vars.len(),
{
    let rest = vars.drop_last();
    let before = changes(rest);
    let all = changes(vars);
    lemma_fewer_changes(vars);
    if let Some(c) = change_of(vars[i].0@, vars[i].1@) {
        let it = (vars[i].0@, c);
        if i < rest.len() {
            each_variable_is_looked_at(rest, i);
            assert(before.contains(it));
            let k = choose|k: int| 0 <= k < before.len() && before[k] == it;
            assert(all[k] == it);
        } else {
            assert(all[before.len() as int] == it);
        }
    }
}

proof fn lemma_fewer_changes(vars: Seq<(String, String)>)
    ensures
        changes(vars).len() <= vars.len(),
    decreases vars.len(),
{
    if vars.len() > 0 {
        lemma_fewer_changes(vars.drop_last());
    }
}

/// The runtime's options that stay are put together again with a space between each two,
/// in their order; where none stays the variable goes, and where that is what it was, it
/// is left alone.
pub proof fn options_that_stay_are_put_together(
    value: Seq<char>,
    flag: Seq<char>,
    hook: Seq<char>,
    a: Seq<char>,
    b: Seq<char>,
)
    requires
        flag == "--require"@ || flag == "-r"@ || flag == "--loader"@ || flag
            == "--experimental-loader"@ || flag == "--import"@,
        text::contains(hook, ".pnp."@),
        !text::contains(a, ".pnp."@) && !text::contains(b, ".pnp."@),
        a != "--require"@ && a != "-r"@ && a != "--loader"@ && a != "--experimental-loader"@ && a
            != "--import"@,
        b != "--require"@ && b != "-r"@ && b != "--loader"@ && b != "--experimental-loader"@ && b
            != "--import"@,
    ensures
        text::words(value) == seq![flag, hook, a, b] ==> change_of("NODE_OPTIONS"@, value) == (if
        value == a + seq![' '] + b {
            None
        } else {
            Some(Some(a + seq![' '] + b))
        }),
        text::words(value) == seq![flag, hook] ==> change_of("NODE_OPTIONS"@, value) == Some(
            None::<Seq<char>>,
        ),
        text::words(value) == seq![a, b] && value == a + seq![' '] + b ==> change_of(
            "NODE_OPTIONS"@,
            value,
        ) is None,
{
    reveal_strlit(" ");
    assert(" "@ =~= seq![' ']);
    let none: Seq<Seq<char>> = seq![];
    assert(kept_options(none) =~= none);
    a_loaded_hook_goes(flag, hook, seq![a, b]);
    a_loaded_hook_goes(flag, hook, none);
    another_option_stays(a, seq![b]);
    another_option_stays(b, none);
    assert(seq![flag, hook] + seq![a, b] =~= seq![flag, hook, a, b]);
    assert(seq![flag, hook] + none =~= seq![flag, hook]);
    assert(seq![a] + seq![b] =~= seq![a, b]);
    assert(seq![b] + none =~= seq![b]);
    assert(kept_options(seq![b]) =~= seq![b]);
    assert(kept_options(seq![a, b]) =~= seq![a, b]);
    assert(seq![a, b].drop_last() =~= seq![a]);
    assert(text::join(seq![a], " "@) == a);
    assert(text::join(seq![a, b], " "@) == a + " "@ + b);
}

} // verus!
