use vstd::prelude::*;

verus! {

#[verifier::external_type_specification]
#[verifier::external_body]
pub struct ExRegex(regex::Regex);

#[verifier::external_type_specification]
#[verifier::external_body]
pub struct ExRegexError(regex::Error);

/// Whether the `regex` crate compiles the pattern (`Regex::new` is `Ok`).
pub uninterp spec fn regex_accepts(pattern: Seq<char>) -> bool;

/// The capture groups of a compiled pattern, in group order, each with its
/// name if it has one (`Regex::capture_names`); group 0 is the whole match.
pub uninterp spec fn regex_group_names(pattern: Seq<char>) -> Seq<Option<Seq<char>>>;

/// The leftmost-first match of the pattern in the text, as the text of each
/// capture group in group order (`None` for a group that did not take part);
/// `None` when the pattern does not match (`Regex::captures`).
pub uninterp spec fn regex_captures(pattern: Seq<char>, text: Seq<char>) -> Option<Seq<Option<Seq<char>>>>;

/// Every successive non-overlapping match of the pattern in the text, each
/// as the text of its capture groups in group order (`Regex::captures_iter`).
pub uninterp spec fn regex_captures_all(pattern: Seq<char>, text: Seq<char>) -> Seq<Seq<Option<Seq<char>>>>;

/// The message that the `regex` crate's error displays for a pattern it
/// refuses (`regex::Error`'s `Display`).
pub uninterp spec fn regex_error_message(pattern: Seq<char>) -> Seq<char>;

/// A pattern the `regex` crate refused: its error and the error's message.
#[derive(Debug)]
pub struct RegexCompileError {
    pub error: regex::Error,
    pub message: String,
}

/// A regular expression together with the pattern it was compiled from.
/// Only `compile` builds one, so the two always agree.
pub struct CompiledRegex {
    pattern: String,
    re: regex::Regex,
}

pub open spec fn opt_views(v: Seq<Option<String>>) -> Seq<Option<Seq<char>>> {
    v.map_values(|o: Option<String>| match o {
        Some(s) => Some(s@),
        None => None,
    })
}

impl CompiledRegex {
    /// The pattern the expression was compiled from.
    pub closed spec fn pattern(&self) -> Seq<char> {
        self.pattern@
    }

    /// Compiles a pattern.
    ///
    /// Trusted: `regex::Regex::new`; succeeds exactly when the crate accepts
    /// the pattern, which is kept beside the compiled expression; on failure
    /// the error comes with its displayed message.
    #[verifier::external_body]
    pub(crate) fn compile(pattern: &str) -> (r: Result<CompiledRegex, RegexCompileError>)
        ensures
            r is Ok <==> regex_accepts(pattern@),
            r matches Ok(c) ==> c.pattern() == pattern@,
            r matches Err(e) ==> e.message@ == regex_error_message(pattern@),
    {
        match regex::Regex::new(pattern) {
            Ok(re) => Ok(CompiledRegex { pattern: pattern.to_string(), re }),
            Err(e) => Err(RegexCompileError { message: e.to_string(), error: e }),
        }
    }

    /// The capture groups with their names, in group order.
    ///
    /// Trusted: `regex::Regex::capture_names`, each name converted to a `String`.
    #[verifier::external_body]
    pub(crate) fn group_names(&self) -> (v: Vec<Option<String>>)
        ensures
            opt_views(v@) == regex_group_names(self.pattern()),
    {
        self.re.capture_names().map(|n| n.map(|s| s.to_string())).collect()
    }

    /// The first match in the text, group by group.
    ///
    /// Trusted: `regex::Regex::captures`; on a match there is one entry per
    /// capture group (`Captures::len` equals the number of groups).
    #[verifier::external_body]
    pub(crate) fn captures(&self, text: &str) -> (r: Option<Vec<Option<String>>>)
        ensures
            match r {
                Some(v) => regex_captures(self.pattern(), text@) == Some(opt_views(v@)),
                None => regex_captures(self.pattern(), text@) is None,
            },
            r matches Some(v) ==> v@.len() == regex_group_names(self.pattern()).len(),
    {
        match self.re.captures(text) {
            Some(caps) => Some(caps.iter().map(|m| m.map(|m| m.as_str().to_string())).collect()),
            None => None,
        }
    }

    /// Every successive match in the text, group by group.
    ///
    /// Trusted: `regex::Regex::captures_iter`; each match has one entry per
    /// capture group.
    #[verifier::external_body]
    pub(crate) fn captures_all(&self, text: &str) -> (r: Vec<Vec<Option<String>>>)
        ensures
            r@.map_values(|v: Vec<Option<String>>| opt_views(v@)) == regex_captures_all(self.pattern(), text@),
            forall|i: int| 0 <= i < r@.len() ==> #[trigger] r@[i]@.len() == regex_group_names(self.pattern()).len(),
    {
        self.re.captures_iter(text).map(|caps| caps.iter().map(|m| m.map(|m| m.as_str().to_string())).collect()).collect()
    }
}

/// The entries of an environment as plain values.
pub open spec fn env_views(env: Seq<(String, String)>) -> Seq<(Seq<char>, Seq<char>)> {
    env.map_values(|e: (String, String)| (e.0@, e.1@))
}

/// The value of the first entry named `name`, if any.
pub open spec fn env_lookup(env: Seq<(Seq<char>, Seq<char>)>, name: Seq<char>) -> Option<Seq<char>>
    decreases env.len(),
{
    if env.len() == 0 {
        None
    } else if env[0].0 == name {
        Some(env[0].1)
    } else {
        env_lookup(env.drop_first(), name)
    }
}

/// What a match of a `$env{NAME}` reference becomes: the value of `NAME` in
/// the environment, or the matched text itself when `NAME` is not set.
pub fn env_value_or(env: &Vec<(String, String)>, name: &str, whole: &str) -> (r: String)
    ensures
        r@ == match env_lookup(env_views(env@), name@) {
            Some(v) => v,
            None => whole@,
        },
{
    let ghost ev = env_views(env@);
    assert(ev.subrange(0, ev.len() as int) =~= ev);
    let mut i: usize = 0;
    while i < env.len()
        invariant
            i <= env@.len(),
            ev == env_views(env@),
            env_lookup(ev, name@) == env_lookup(ev.subrange(i as int, ev.len() as int), name@),
        decreases env@.len() - i,
    {
        let ghost rest = ev.subrange(i as int, ev.len() as int);
        assert(rest.drop_first() =~= ev.subrange(i as int + 1, ev.len() as int));
        assert(rest[0] == (env@[i as int].0@, env@[i as int].1@));
        if crate::text::str_eq(env[i].0.as_str(), name) {
            return env[i].1.clone();
        }
        i += 1;
    }
    whole.to_string()
}

/// The text with every match of the pattern replaced, left to right and
/// without overlap, by what `env_value_or` gives for the match's first
/// capture group and its whole text (`Regex::replace_all`).
pub uninterp spec fn regex_env_replaced(pattern: Seq<char>, text: Seq<char>, env: Seq<(Seq<char>, Seq<char>)>) -> Seq<char>;

impl CompiledRegex {
    /// Replaces every match by the value of the environment entry its first
    /// group names, or leaves it as it is.
    ///
    /// Trusted: `regex::Regex::replace_all` with a replacer that calls
    /// `env_value_or` on the match's first group and its whole text.
    #[verifier::external_body]
    pub(crate) fn replace_env_refs(&self, text: &str, env: &Vec<(String, String)>) -> (r: String)
        ensures
            r@ == regex_env_replaced(self.pattern(), text@, env_views(env@)),
    {
        self.re.replace_all(text, |caps: &regex::Captures| {
            env_value_or(env, caps.get(1).map_or("", |m| m.as_str()), caps.get(0).map_or("", |m| m.as_str()))
        }).to_string()
    }
}

} // verus!
