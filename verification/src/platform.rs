//! The platform a scan runs on, and the names that depend on it.

use vstd::prelude::*;
use vstd::string::*;

verus! {

/// The operating system whose conventions a scan follows.
#[derive(Clone, Copy, Debug, PartialEq, Eq, Structural)]
pub enum Platform {
    Linux,
    MacOs,
    /// A Unix that is neither Linux nor macOS.
    Unix,
    Windows,
}

/// The name of the directory that holds an environment's executables.
pub open spec fn bin_dir_name(platform: Platform) -> Seq<char> {
    if platform is Windows {
        "Scripts"@
    } else {
        "bin"@
    }
}

/// The canonical name of the interpreter.
pub open spec fn python_name(platform: Platform) -> Seq<char> {
    if platform is Windows {
        "python.exe"@
    } else {
        "python"@
    }
}

/// The canonical name of the version 3 interpreter.
pub open spec fn python3_name(platform: Platform) -> Seq<char> {
    if platform is Windows {
        "python3.exe"@
    } else {
        "python3"@
    }
}

/// Whether a character separates the components of a path. A slash does
/// on every platform; on Windows a backslash does too.
pub open spec fn is_separator(c: char, platform: Platform) -> bool {
    c == '/' || (platform is Windows && c == '\\')
}

/// The separator that is put between a directory and what is joined to it.
pub open spec fn main_separator(platform: Platform) -> char {
    if platform is Windows {
        '\\'
    } else {
        '/'
    }
}

impl Platform {
    /// Whether a character separates the components of a path.
    pub fn separates(self, c: char) -> (r: bool)
        ensures
            r == is_separator(c, self),
    {
        c == '/' || (self.is_windows() && c == '\\')
    }

    /// The separator put between a directory and what is joined to it.
    pub fn separator(self) -> (r: &'static str)
        ensures
            r@ == seq![main_separator(self)],
    {
        if self.is_windows() {
            proof {
                reveal_strlit("\\");
            }
            assert("\\"@ =~= seq!['\\']);
            "\\"
        } else {
            proof {
                reveal_strlit("/");
            }
            assert("/"@ =~= seq!['/']);
            "/"
        }
    }

    /// Whether the platform is Windows.
    pub fn is_windows(self) -> (r: bool)
        ensures
            r == (self is Windows),
    {
        match self {
            Platform::Windows => true,
            _ => false,
        }
    }

    /// The name of the directory that holds an environment's executables.
    pub fn bin_dir(self) -> (r: &'static str)
        ensures
            r@ == bin_dir_name(self),
    {
        if self.is_windows() {
            "Scripts"
        } else {
            "bin"
        }
    }

    /// The canonical name of the interpreter.
    pub fn python(self) -> (r: &'static str)
        ensures
            r@ == python_name(self),
    {
        if self.is_windows() {
            "python.exe"
        } else {
            "python"
        }
    }

    /// The canonical name of the version 3 interpreter.
    pub fn python3(self) -> (r: &'static str)
        ensures
            r@ == python3_name(self),
    {
        if self.is_windows() {
            "python3.exe"
        } else {
            "python3"
        }
    }
}

} // verus!
