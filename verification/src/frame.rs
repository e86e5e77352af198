//! One resolved stack frame: an address, the binary it belongs to, and
//! whatever the debug metadata knew about function, file and line.

use vstd::prelude::*;

use crate::render::{hex_chars, dec_chars, u64_hex, u64_dec};

verus! {

/// The resolved description of one return address. The optional fields
/// reflect genuinely missing debug information, not a failure.
#[derive(Debug, Clone)]
pub struct StackFrame {
    /// Source line, when the line table covers the address.
    pub line: Option<u64>,
    /// Source file, when the line table covers the address.
    pub filename: Option<String>,
    /// Function name, when a symbol covers the address.
    pub function: Option<String>,
    /// Identifier of the binary whose range contains the address.
    pub module: String,
    /// The address itself, in the target's address space.
    pub addr: u64,
}

impl StackFrame {
    /// The function name to show: the symbol's, or `"?"` when none is known.
    pub open spec fn function_text(self) -> Seq<char> {
        match self.function {
            Some(f) => f@,
            None => "?"@,
        }
    }

    /// The rendered frame: the address as sixteen hexadecimal digits, the
    /// function name or `"?"`, then `(file:line)` when the file is known
    /// (a missing line renders as `0`), else `(module)`.
    pub open spec fn rendered(self) -> Seq<char> {
        let head = "0x"@ + hex_chars(self.addr as int, 16) + " "@ + self.function_text();
        match self.filename {
            Some(file) => {
                let line: u64 = match self.line {
                    Some(n) => n,
                    None => 0u64,
                };
                head + " ("@ + file@ + ":"@ + dec_chars(line as int) + ")"@
            },
            None => head + " ("@ + self.module@ + ")"@,
        }
    }

    /// Render this frame as [`StackFrame::rendered`] says.
    pub fn render(&self) -> (s: String)
        ensures
            s@ == self.rendered(),
    {
        let mut s = String::from_str("0x");
        let hex = u64_hex(self.addr, 16);
        s.append(hex.as_str());
        s.append(" ");
        match &self.function {
            Some(f) => { s.append(f.as_str()); },
            None => { s.append("?"); },
        }
        match &self.filename {
            Some(file) => {
                s.append(" (");
                s.append(file.as_str());
                s.append(":");
                let line: u64 = match &self.line {
                    Some(n) => *n,
                    None => 0u64,
                };
                let dec = u64_dec(line);
                s.append(dec.as_str());
                s.append(")");
            },
            None => {
                s.append(" (");
                s.append(self.module.as_str());
                s.append(")");
            },
        }
        proof {
            assert(s@ =~= self.rendered());
        }
        s
    }
}

} // verus!
