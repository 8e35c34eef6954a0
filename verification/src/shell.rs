//! Finding a binary the way the user's own terminal would: by asking a login
//! shell.

use vstd::prelude::*;

use crate::error::AppError;
use crate::text;

verus! {

/// How a text is displayed between quotes, with what is special in it escaped:
/// `{:?}` of a string.
pub uninterp spec fn quoted_text(s: Seq<char>) -> Seq<char>;

/// The `Debug` form of a `str`: the text between double quotes, escaped.
#[verifier::external_body]
pub(crate) fn quoted(s: &str) -> (r: String)
    ensures
        r@ == quoted_text(s@),
{
    format!("{:?}", s)
}

/// Whether a name could be anything but one word of the shell's command.
pub open spec fn breaks_out(bin: Seq<char>) -> bool {
    bin.len() == 0 || exists|i: int|
        0 <= i < bin.len() && (text::is_white(#[trigger] bin[i]) || bin[i] == '\'' || bin[i] == '"')
}

fn is_unsafe_name(bin: &str) -> (r: bool)
    ensures
        r == breaks_out(bin@),
{
    let v = text::chars_of(bin);
    if v.len() == 0 {
        return true;
    }
    let mut i: usize = 0;
    while i < v.len()
        invariant
            i <= v.len(),
            v@ == bin@,
            v.len() > 0,
            forall|k: int|
                0 <= k < i ==> !(text::is_white(#[trigger] bin@[k]) || bin@[k] == '\'' || bin@[k]
                    == '"'),
        decreases v.len() - i,
    {
        let c: char = v[i];
        if text::white(c) || c == '\'' || c == '"' {
            assert(text::is_white(bin@[i as int]) || bin@[i as int] == '\'' || bin@[i as int]
                == '"');
            return true;
        }
        i = i + 1;
    }
    false
}

/// What is said of a name that is refused, once it was put between quotes.
pub fn invalid_name(shown: &str) -> (r: AppError)
    ensures
        r.says("invalid binary name: "@ + shown@),
{
    AppError::Other(text::cat("invalid binary name: ", shown))
}

/// The command that the login shell is given. A name that could be more than one
/// word of it is refused before any shell is started.
pub fn which_command(bin: &str) -> (r: Result<String, AppError>)
    ensures
        if breaks_out(bin@) {
            r matches Err(e) && e.says("invalid binary name: "@ + quoted_text(bin@))
        } else {
            r matches Ok(c) && c@ == "which "@ + bin@
        },
{
    if is_unsafe_name(bin) {
        return Err(invalid_name(&quoted(bin)));
    }
    Ok(text::cat("which ", bin))
}

/// What the login shell answered.
#[derive(Debug)]
pub enum WhichOutcome {
    /// It could not be started.
    Unspawned { error: String },
    Failed { stderr: String },
    Done { stdout: String },
}

/// What is left of the shell's output behind the last bell: terminals put their
/// own escape sequences, which end in one, in front.
pub open spec fn behind_bell(raw: Seq<char>) -> Seq<char> {
    match text::rfind_char(raw, '\x07') {
        Some(i) => raw.skip(i + 1),
        None => raw,
    }
}

/// The path in the shell's output.
pub fn extract_path(raw: &str) -> (r: String)
    ensures
        r@ == text::trim(behind_bell(raw@)),
{
    let v = text::chars_of(raw);
    match text::seek_back(&v, '\x07') {
        Some(i) => {
            let rest = text::piece(&v, i + 1, v.len());
            assert(rest@ =~= raw@.skip(i + 1));
            text::trimmed(&rest)
        },
        None => text::trimmed(raw),
    }
}

/// What is said when a binary is not on the login shell's path.
pub open spec fn not_found(bin: Seq<char>, hint: Option<Seq<char>>) -> Seq<char> {
    bin + " not found — "@ + (match hint {
        Some(h) => "install with `"@ + h + "`"@,
        None => "install it"@,
    }) + " and make sure `which "@ + bin + "` works in a login shell"@
}

/// Make the path of a binary out of what the login shell answered.
pub fn which(bin: &str, install_hint: Option<&str>, outcome: WhichOutcome) -> (r: Result<
    String,
    AppError,
>)
    ensures
        match outcome {
            WhichOutcome::Unspawned { error } => r matches Err(e) && e.says(
                "failed to invoke /bin/zsh: "@ + error@,
            ),
            WhichOutcome::Failed { stderr } => {
                let said = text::trim(stderr@);
                r matches Err(e) && e.says(
                    "`which "@ + bin@ + "` via /bin/zsh failed: "@ + (if said.len() == 0 {
                        "no stderr"@
                    } else {
                        said
                    }),
                )
            },
            WhichOutcome::Done { stdout } => {
                let path = text::trim(behind_bell(stdout@));
                if path.len() == 0 || path[0] != '/' {
                    r matches Err(e) && e.says(
                        not_found(
                            bin@,
                            match install_hint {
                                Some(h) => Some(h@),
                                None => None,
                            },
                        ),
                    )
                } else {
                    r matches Ok(p) && p@ == path
                }
            },
        },
{
    match outcome {
        WhichOutcome::Unspawned { error } => Err(
            AppError::Other(text::cat("failed to invoke /bin/zsh: ", &error)),
        ),
        WhichOutcome::Failed { stderr } => {
            let said = text::trimmed(&stderr);
            let mut m = text::cat3("`which ", bin, "` via /bin/zsh failed: ");
            if said.as_str().is_empty() {
                m.append("no stderr");
            } else {
                m.append(&said);
            }
            Err(AppError::Other(m))
        },
        WhichOutcome::Done { stdout } => {
            let path = extract_path(&stdout);
            let v = text::chars_of(&path);
            if v.len() == 0 || v[0] != '/' {
                let how = match install_hint {
                    Some(h) => text::cat3("install with `", h, "`"),
                    None => "install it".to_owned(),
                };
                let mut m = text::cat3(bin, " not found — ", &how);
                m.append(" and make sure `which ");
                m.append(bin);
                m.append("` works in a login shell");
                return Err(AppError::Other(m));
            }
            Ok(path)
        },
    }
}

/// A name can be run as it is where it holds something, and neither white space nor a
/// quote; with any of these in it, it could be read as more than a name.
pub proof fn a_name_stays_one_word(a: Seq<char>, c: char, b: Seq<char>)
    ensures
        c == ' ' || c == '\t' || c == '\n' || c == '\'' || c == '"' ==> breaks_out(a + seq![c] + b),
        breaks_out(seq![]),
        !breaks_out(a) && !breaks_out(b) ==> !breaks_out(a + b),
        c != '\'' && c != '"' && !text::is_white(c) ==> !breaks_out(seq![c]),
{
    let s = a + seq![c] + b;
    assert(s[a.len() as int] == c);
    if !breaks_out(a) && !breaks_out(b) {
        let t = a + b;
        assert forall|i: int| 0 <= i < t.len() implies !(text::is_white(#[trigger] t[i]) || t[i]
            == '\'' || t[i] == '"') by {
            if i < a.len() {
                assert(t[i] == a[i]);
            } else {
                assert(t[i] == b[i - a.len()]);
            }
        }
    }
}

/// What a shell prints counts from behind the last bell on, which ends what it tells the
/// terminal; without a bell, all of it counts.
pub proof fn what_follows_the_last_bell_counts(a: Seq<char>, b: Seq<char>)
    requires
        !b.contains('\x07'),
    ensures
        behind_bell(a + seq!['\x07'] + b) == b,
        behind_bell(b) == b,
{
    text::the_last_place_is_found(a, '\x07', b);
    assert((a + seq!['\x07'] + b).skip(a.len() as int + 1) =~= b);
}

/// Who misses a program is told its name, and how to install it where that is known.
pub proof fn a_missing_program_is_named(bin: Seq<char>, hint: Seq<char>)
    ensures
        bin.is_prefix_of(not_found(bin, None)) && bin.is_prefix_of(not_found(bin, Some(hint))),
        not_found(bin, Some(hint)) == bin + " not found — "@ + ("install with `"@ + hint + "`"@)
            + " and make sure `which "@ + bin + "` works in a login shell"@,
        not_found(bin, None) == bin + " not found — "@ + "install it"@ + " and make sure `which "@
            + bin + "` works in a login shell"@,
{
    assert(not_found(bin, None).take(bin.len() as int) =~= bin);
    assert(not_found(bin, Some(hint)).take(bin.len() as int) =~= bin);
}

} // verus!
