//! Names of source files.
use vstd::prelude::*;
use vstd::string::StringExecFns;

verus! {

/// Where the text of a source file came from.
#[derive(Clone, Debug, Hash)]
pub enum FileName {
    /// A file on disk, by path.
    Real(String),
    /// Text generated by the named macros.
    Macros(String),
    QuoteExpansion,
    /// Text with no name.
    Anon,
    MacroExpansion,
    ProcMacroSourceCode,
    /// Text fetched from a URL.
    Url(String),
    /// Text produced by the tool itself.
    Internal(String),
    /// Text named by its user.
    Custom(String),
}

/// A value that `FileName` is equal to exactly when the names are equal.
pub enum FileNameKey {
    Real(Seq<char>),
    Macros(Seq<char>),
    QuoteExpansion,
    Anon,
    MacroExpansion,
    ProcMacroSourceCode,
    Url(Seq<char>),
    Internal(Seq<char>),
    Custom(Seq<char>),
}

impl View for FileName {
    type V = FileNameKey;

    open spec fn view(&self) -> FileNameKey {
        match self {
            FileName::Real(s) => FileNameKey::Real(s@),
            FileName::Macros(s) => FileNameKey::Macros(s@),
            FileName::QuoteExpansion => FileNameKey::QuoteExpansion,
            FileName::Anon => FileNameKey::Anon,
            FileName::MacroExpansion => FileNameKey::MacroExpansion,
            FileName::ProcMacroSourceCode => FileNameKey::ProcMacroSourceCode,
            FileName::Url(s) => FileNameKey::Url(s@),
            FileName::Internal(s) => FileNameKey::Internal(s@),
            FileName::Custom(s) => FileNameKey::Custom(s@),
        }
    }
}

impl PartialEq for FileName {
    fn eq(&self, other: &FileName) -> (r: bool)
        ensures
            r == (self@ == other@),
    {
        match (self, other) {
            (FileName::Real(a), FileName::Real(b)) => a.eq(b),
            (FileName::Macros(a), FileName::Macros(b)) => a.eq(b),
            (FileName::QuoteExpansion, FileName::QuoteExpansion) => true,
            (FileName::Anon, FileName::Anon) => true,
            (FileName::MacroExpansion, FileName::MacroExpansion) => true,
            (FileName::ProcMacroSourceCode, FileName::ProcMacroSourceCode) => true,
            (FileName::Url(a), FileName::Url(b)) => a.eq(b),
            (FileName::Internal(a), FileName::Internal(b)) => a.eq(b),
            (FileName::Custom(a), FileName::Custom(b)) => a.eq(b),
            _ => false,
        }
    }
}

impl vstd::std_specs::cmp::PartialEqSpecImpl for FileName {
    open spec fn obeys_eq_spec() -> bool {
        true
    }

    open spec fn eq_spec(&self, other: &FileName) -> bool {
        self@ == other@
    }
}

impl Eq for FileName {}

/// How a file name is shown to people.
pub open spec fn display_of(n: FileNameKey) -> Seq<char> {
    match n {
        FileNameKey::Real(p) => p,
        FileNameKey::Macros(s) => seq!['<'] + s + " macros>"@,
        FileNameKey::QuoteExpansion => "<quote expansion>"@,
        FileNameKey::Anon => "<anon>"@,
        FileNameKey::MacroExpansion => "<macro expansion>"@,
        FileNameKey::ProcMacroSourceCode => "<proc-macro source code>"@,
        FileNameKey::Url(u) => u,
        FileNameKey::Internal(s) => seq!['<'] + s + seq!['>'],
        FileNameKey::Custom(s) => seq!['<'] + s + seq!['>'],
    }
}

impl FileName {
    /// An equal name that owns its own text.
    pub fn duplicate(&self) -> (r: FileName)
        ensures
            r@ == self@,
    {
        match self {
            FileName::Real(p) => FileName::Real(p.clone()),
            FileName::Macros(s) => FileName::Macros(s.clone()),
            FileName::QuoteExpansion => FileName::QuoteExpansion,
            FileName::Anon => FileName::Anon,
            FileName::MacroExpansion => FileName::MacroExpansion,
            FileName::ProcMacroSourceCode => FileName::ProcMacroSourceCode,
            FileName::Url(u) => FileName::Url(u.clone()),
            FileName::Internal(s) => FileName::Internal(s.clone()),
            FileName::Custom(s) => FileName::Custom(s.clone()),
        }
    }

    /// The name as it is shown to people.
    pub fn to_display_string(&self) -> (r: String)
        ensures
            r@ == display_of(self@),
    {
        proof {
            reveal_strlit("<");
            reveal_strlit(">");
        }
        match self {
            FileName::Real(p) => p.clone(),
            FileName::Macros(s) => String::from_str("<").concat(s.as_str()).concat(" macros>"),
            FileName::QuoteExpansion => String::from_str("<quote expansion>"),
            FileName::Anon => String::from_str("<anon>"),
            FileName::MacroExpansion => String::from_str("<macro expansion>"),
            FileName::ProcMacroSourceCode => String::from_str("<proc-macro source code>"),
            FileName::Url(u) => u.clone(),
            FileName::Internal(s) => String::from_str("<").concat(s.as_str()).concat(">"),
            FileName::Custom(s) => String::from_str("<").concat(s.as_str()).concat(">"),
        }
    }
}

} // verus!
