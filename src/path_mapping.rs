//! Rewriting of path prefixes in the names of real files.
use vstd::prelude::*;

verus! {

/// What `Path::strip_prefix` leaves of `path` once the leading components
/// `prefix` are taken off, if they lead it.
pub uninterp spec fn path_strip_prefix(path: Seq<char>, prefix: Seq<char>) -> Option<Seq<char>>;

/// What `Path::join` makes of `base` followed by `rest`.
pub uninterp spec fn path_join(base: Seq<char>, rest: Seq<char>) -> Seq<char>;

/// Relies on std's `Path::strip_prefix`, which compares whole path
/// components.
#[verifier::external_body]
fn strip_prefix(path: &str, prefix: &str) -> (r: Option<String>)
    ensures
        r matches Some(s) ==> path_strip_prefix(path@, prefix@) == Some(s@),
        r is None ==> path_strip_prefix(path@, prefix@) is None,
{
    match std::path::Path::new(path).strip_prefix(prefix) {
        Ok(rest) => Some(rest.to_string_lossy().into_owned()),
        Err(_) => None,
    }
}

/// Relies on std's `Path::join`, which puts a separator between the two
/// parts.
#[verifier::external_body]
fn join(base: &str, rest: &str) -> (r: String)
    ensures
        r@ == path_join(base@, rest@),
{
    std::path::Path::new(base).join(rest).to_string_lossy().into_owned()
}

/// The rule set of the first `n` rules applied to `path`: the last rule whose
/// prefix leads the path replaces that prefix.
pub open spec fn map_prefix_spec(rules: Seq<(Seq<char>, Seq<char>)>, n: int, path: Seq<char>) -> (Seq<char>, bool)
    decreases n,
{
    if n <= 0 {
        (path, false)
    } else {
        match path_strip_prefix(path, rules[n - 1].0) {
            Some(rest) => (path_join(rules[n - 1].1, rest), true),
            None => map_prefix_spec(rules, n - 1, path),
        }
    }
}

/// An ordered list of `(from, to)` path prefix rules.
#[derive(Clone, Default)]
pub struct FilePathMapping {
    mapping: Vec<(String, String)>,
}

impl FilePathMapping {
    /// The rules as text.
    pub closed spec fn rules(&self) -> Seq<(Seq<char>, Seq<char>)> {
        self.mapping@.map_values(|p: (String, String)| (p.0@, p.1@))
    }

    /// No rules.
    pub fn empty() -> (r: FilePathMapping)
        ensures
            r.rules().len() == 0,
    {
        FilePathMapping { mapping: Vec::new() }
    }

    pub fn new(mapping: Vec<(String, String)>) -> (r: FilePathMapping)
        ensures
            r.rules() == mapping@.map_values(|p: (String, String)| (p.0@, p.1@)),
    {
        FilePathMapping { mapping }
    }

    /// Applies the last rule whose prefix leads `path`; tells whether one did.
    pub fn map_prefix(&self, path: &str) -> (r: (String, bool))
        ensures
            (r.0@, r.1) == map_prefix_spec(self.rules(), self.rules().len() as int, path@),
    {
        let mut i: usize = self.mapping.len();
        while i > 0
            invariant
                i <= self.mapping@.len(),
                map_prefix_spec(self.rules(), self.rules().len() as int, path@) == map_prefix_spec(
                    self.rules(),
                    i as int,
                    path@,
                ),
            decreases i,
        {
            let (from, to) = &self.mapping[i - 1];
            match strip_prefix(path, from.as_str()) {
                Some(rest) => {
                    return (join(to.as_str(), rest.as_str()), true);
                },
                None => {},
            }
            i = i - 1;
        }
        (path.to_owned(), false)
    }
}

} // verus!
