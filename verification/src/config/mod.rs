pub mod diff;
pub mod generate;
pub mod parse;
pub mod reconcile;
pub mod reconciler;
pub mod types;
pub mod validate;
pub mod version;

use vstd::prelude::*;
use crate::matcher::{CompiledRegex, env_views, regex_accepts, regex_env_replaced};
use crate::text::{chars_of, string_from_chars};

verus! {

/// The pattern of a `$env{NAME}` reference.
pub open spec fn env_ref_pattern() -> Seq<char> {
    "\\$env\\{([A-Za-z_][A-Za-z0-9_]*)\\}"@
}

/// Expands `$env{NAME}` references in a text from the environment given as
/// its (name, value) entries; a reference to a name that is not set stays
/// as it is, and `${name}` references are not touched.
pub fn expand_env_vars(text: &str, env: &Vec<(String, String)>) -> (r: String)
    ensures
        regex_accepts(env_ref_pattern()) ==> r@ == regex_env_replaced(env_ref_pattern(), text@, env_views(env@)),
        !regex_accepts(env_ref_pattern()) ==> r@ == text@,
{
    match CompiledRegex::compile("\\$env\\{([A-Za-z_][A-Za-z0-9_]*)\\}") {
        Ok(re) => re.replace_env_refs(text, env),
        Err(_) => text.to_string(),
    }
}

/// The user's home directory, if it can be found.
///
/// Trusted: `dirs::home_dir`, the path taken as text; it depends on the
/// environment, so nothing is promised of it.
#[verifier::external_body]
pub(crate) fn home_dir() -> (r: Option<String>) {
    dirs::home_dir().map(|p| p.to_string_lossy().into_owned())
}

/// What joining a relative or absolute path to a base gives on Unix: an
/// absolute path replaces the base; otherwise a `/` separates the two
/// unless the base is empty or already ends with one.
pub open spec fn spec_join_path(base: Seq<char>, rest: Seq<char>) -> Seq<char> {
    if rest.len() > 0 && rest[0] == '/' {
        rest
    } else if base.len() == 0 || base.last() == '/' {
        base + rest
    } else {
        base + seq!['/'] + rest
    }
}

/// Joins a path to a base path as `std::path::Path::join` does on Unix: an
/// absolute path replaces the base, and otherwise a `/` goes between the two
/// unless the base is empty or already ends with one.
fn join_path(base: &str, rest: &str) -> (r: String)
    ensures
        r@ == spec_join_path(base@, rest@),
{
    let rc = crate::text::chars_of(rest);
    if rc.len() > 0 && rc[0] == '/' {
        return crate::text::string_from_chars(rc.as_slice());
    }
    let mut v = crate::text::chars_of(base);
    if !(v.len() == 0 || v[v.len() - 1] == '/') {
        v.push('/');
    }
    let ghost b = v@;
    crate::text::append_str(&mut v, rest);
    proof {
        if !(base@.len() == 0 || base@.last() == '/') {
            assert(b == base@ + seq!['/']);
        }
    }
    crate::text::string_from_chars(v.as_slice())
}

/// The path with a leading `~` replaced by the home directory, when one is
/// given: `~/rest` becomes the home directory joined with `rest`, and `~`
/// alone the home directory; any other path stays as it is.
pub open spec fn spec_expand_tilde(path: Seq<char>, home: Option<Seq<char>>) -> Seq<char> {
    match home {
        Some(h) => if path.len() >= 2 && path[0] == '~' && path[1] == '/' {
            spec_join_path(h, path.skip(2))
        } else if path == seq!['~'] {
            h
        } else {
            path
        },
        None => path,
    }
}

/// Expands a leading `~` of a path with the given home directory.
pub fn expand_tilde_with_home(path: &str, home: Option<&str>) -> (r: String)
    ensures
        r@ == spec_expand_tilde(path@, match home { Some(h) => Some(h@), None => None }),
{
    let c = chars_of(path);
    match home {
        Some(h) => {
            if c.len() >= 2 && c[0] == '~' && c[1] == '/' {
                let mut rest: Vec<char> = Vec::new();
                let mut i: usize = 2;
                while i < c.len()
                    invariant
                        2 <= i <= c@.len(),
                        rest@ == c@.subrange(2, i as int),
                    decreases c@.len() - i,
                {
                    rest.push(c[i]);
                    assert(rest@ =~= c@.subrange(2, i as int + 1));
                    i += 1;
                }
                assert(rest@ =~= path@.skip(2));
                let rest_s = string_from_chars(rest.as_slice());
                join_path(h, rest_s.as_str())
            } else if c.len() == 1 && c[0] == '~' {
                assert(path@ =~= seq!['~']);
                h.to_string()
            } else {
                assert(path@ != seq!['~']) by {
                    if path@ == seq!['~'] {
                        assert(c@.len() == 1);
                    }
                }
                path.to_string()
            }
        },
        None => path.to_string(),
    }
}

/// Expands a leading `~` of a path to the user's home directory; the path
/// stays as it is when it has none or no home directory can be found.
pub fn expand_tilde(path: &str) -> (r: String)
    ensures
        r@ == path@ || exists|h: Seq<char>| r@ == #[trigger] spec_expand_tilde(path@, Some(h)),
{
    match home_dir() {
        Some(h) => expand_tilde_with_home(path, Some(h.as_str())),
        None => expand_tilde_with_home(path, None),
    }
}

} // verus!
