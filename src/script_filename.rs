//! The validated file name shared by every persisted script link.

use vstd::prelude::*;
use vstd::utf8::encode_utf8;

use crate::error::Application;
use crate::text::{chars_of, same_text};

verus! {

/// Whether the name ends in the extension `sh`: the text after its last dot
/// is `sh` and the text before that dot is not empty.
pub open spec fn has_sh_extension(s: Seq<char>) -> bool {
    &&& s.len() >= 4
    &&& s[s.len() - 3] == '.'
    &&& s[s.len() - 2] == 's'
    &&& s[s.len() - 1] == 'h'
}

/// The rules a script file name must meet: not empty, not `.` or `..`, no NUL,
/// at most 255 bytes, a single path segment, and the extension `sh`.
pub open spec fn is_script_filename(s: Seq<char>) -> bool {
    &&& s.len() > 0
    &&& s != "."@
    &&& s != ".."@
    &&& !s.contains('\0')
    &&& encode_utf8(s).len() <= 255
    &&& !s.contains('/')
    &&& has_sh_extension(s)
}

/// The error that reports a rejected file name.
pub open spec fn is_filename_error(e: Application, s: Seq<char>) -> bool {
    match e {
        Application::BadInitData { category, value } => category@ == "ShellScriptFilename"@
            && value@ == s,
        _ => false,
    }
}

/// A file name that meets [`is_script_filename`].
#[derive(Debug, PartialEq, Eq, Hash)]
pub struct ShellScriptFilename(String);

impl View for ShellScriptFilename {
    type V = Seq<char>;

    closed spec fn view(&self) -> Seq<char> {
        self.0@
    }
}

/// Whether `c` occurs in `cs`.
fn contains_char(cs: &Vec<char>, c: char) -> (r: bool)
    ensures
        r == cs@.contains(c),
{
    let mut i: usize = 0;
    while i < cs.len()
        invariant
            i <= cs.len(),
            forall|j: int| 0 <= j < i ==> cs@[j] != c,
        decreases cs.len() - i,
    {
        if cs[i] == c {
            return true;
        }
        i = i + 1;
    }
    false
}

impl ShellScriptFilename {
    #[verifier::type_invariant]
    closed spec fn inv(self) -> bool {
        is_script_filename(self.0@)
    }

    /// The validated name.
    pub fn as_str(&self) -> (r: &str)
        ensures
            r@ == self@,
            is_script_filename(r@),
    {
        proof {
            use_type_invariant(self);
        }
        self.0.as_str()
    }

    fn error(s: &str) -> (r: Application)
        ensures
            is_filename_error(r, s@),
    {
        Application::BadInitData { category: "ShellScriptFilename", value: s.to_owned() }
    }

    /// Checks `s` against the file name rules and wraps it.
    pub fn parse(s: &str) -> (r: Result<ShellScriptFilename, Application>)
        ensures
            match r {
                Ok(f) => is_script_filename(s@) && f@ == s@,
                Err(e) => !is_script_filename(s@) && is_filename_error(e, s@),
            },
    {
        if s.is_empty() || same_text(s, ".") || same_text(s, "..") {
            return Err(Self::error(s));
        }
        let cs = chars_of(s);
        if contains_char(&cs, '\0') || s.as_bytes().len() > 255 {
            return Err(Self::error(s));
        }
        if contains_char(&cs, '/') {
            return Err(Self::error(s));
        }
        let n = cs.len();
        if n < 4 || cs[n - 3] != '.' || cs[n - 2] != 's' || cs[n - 1] != 'h' {
            return Err(Self::error(s));
        }
        Ok(ShellScriptFilename(s.to_owned()))
    }
}

impl Clone for ShellScriptFilename {
    fn clone(&self) -> (r: ShellScriptFilename)
        ensures
            r@ == self@,
    {
        proof {
            use_type_invariant(self);
        }
        ShellScriptFilename(self.0.clone())
    }
}

impl std::str::FromStr for ShellScriptFilename {
    type Err = Application;

    fn from_str(s: &str) -> Result<ShellScriptFilename, Application> {
        ShellScriptFilename::parse(s)
    }
}

} // verus!
