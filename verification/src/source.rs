//! The source of a script.
use crate::text::concat;
use vstd::prelude::*;
use vstd::string::*;

verus! {

/// The code of a script and the name of its file.
#[derive(Clone, Copy)]
pub struct NamedSource<'a> {
    name: &'a str,
    code: &'a str,
}

impl<'a> NamedSource<'a> {
    /// The name of the file.
    pub closed spec fn file(&self) -> Seq<char> {
        self.name@
    }

    /// The code.
    pub closed spec fn text(&self) -> Seq<char> {
        self.code@
    }

    /// A script with its name.
    pub fn new(name: &'a str, code: &'a str) -> (r: Self)
        ensures
            r.file() == name@,
            r.text() == code@,
    {
        NamedSource { name, code }
    }

    /// The code.
    pub fn source(&self) -> (r: &'a str)
        ensures
            r@ == self.text(),
    {
        self.code
    }

    /// The name under which errors of the script are shown: that of the file. The sign before
    /// it keeps the interpreter from putting it in quotes.
    pub fn name(&self) -> (r: String)
        ensures
            r@ == "@"@ + self.file(),
    {
        concat("@", self.name)
    }
}

/// A script keeps its code as it is, and errors show it under the name of its file.
pub proof fn law_scripts_keep_their_code(
    name: &str,
    code: &str,
    script: NamedSource<'_>,
    source: &str,
    shown: String,
)
    requires
        call_ensures(NamedSource::new, (name, code), script),
        call_ensures(NamedSource::source, (&script,), source),
        call_ensures(NamedSource::name, (&script,), shown),
    ensures
        source@ == code@,
        shown@.len() == name@.len() + 1,
        shown@[0] == '@',
        shown@.skip(1) == name@,
{
    reveal_strlit("@");
    assert(shown@.skip(1) =~= name@);
}

} // verus!
