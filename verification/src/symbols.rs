//! The marker symbols that drive both scanners: fragment open and close,
//! halt, insertion, pattern and metadata markers, and the metadata property
//! separator. A `SymbolKey` is built once per run and shared read-only.

use vstd::prelude::*;

verus! {

/// The marker configuration of one extraction or weave run.
#[derive(Debug, PartialEq, Eq, Clone)]
pub struct SymbolKey {
    pub(crate) fragment_open: String,
    pub(crate) fragment_close: String,
    pub(crate) halt: String,
    pub(crate) insertion: String,
    pub(crate) pattern: String,
    pub(crate) metadata: String,
    pub(crate) separator: char,
}

/// The mathematical content of a `SymbolKey`.
pub struct SymbolKeyV {
    pub fragment_open: Seq<char>,
    pub fragment_close: Seq<char>,
    pub halt: Seq<char>,
    pub insertion: Seq<char>,
    pub pattern: Seq<char>,
    pub metadata: Seq<char>,
    pub separator: char,
}

impl SymbolKeyV {
    /// Every marker is non-empty; an empty marker would match at every
    /// position and the scanners would not terminate.
    pub open spec fn wf(self) -> bool {
        &&& self.fragment_open.len() >= 1
        &&& self.fragment_close.len() >= 1
        &&& self.halt.len() >= 1
        &&& self.insertion.len() >= 1
        &&& self.pattern.len() >= 1
        &&& self.metadata.len() >= 1
    }
}

impl View for SymbolKey {
    type V = SymbolKeyV;

    closed spec fn view(&self) -> SymbolKeyV {
        SymbolKeyV {
            fragment_open: self.fragment_open@,
            fragment_close: self.fragment_close@,
            halt: self.halt@,
            insertion: self.insertion@,
            pattern: self.pattern@,
            metadata: self.metadata@,
            separator: self.separator,
        }
    }
}

/// The default marker symbols.
pub open spec fn default_symbols() -> SymbolKeyV {
    SymbolKeyV {
        fragment_open: seq!['@', '<'],
        fragment_close: seq!['>', '@'],
        halt: seq!['@', '!', 'h', 'a', 'l', 't'],
        insertion: seq!['@', '@'],
        pattern: seq!['@', '*'],
        metadata: seq!['@', '?'],
        separator: '.',
    }
}

impl SymbolKey {
    pub fn fragment_open(&self) -> (r: &str)
        ensures
            r@ == self@.fragment_open,
    {
        self.fragment_open.as_str()
    }

    pub fn fragment_close(&self) -> (r: &str)
        ensures
            r@ == self@.fragment_close,
    {
        self.fragment_close.as_str()
    }

    pub fn halt(&self) -> (r: &str)
        ensures
            r@ == self@.halt,
    {
        self.halt.as_str()
    }

    pub fn insertion(&self) -> (r: &str)
        ensures
            r@ == self@.insertion,
    {
        self.insertion.as_str()
    }

    pub fn pattern(&self) -> (r: &str)
        ensures
            r@ == self@.pattern,
    {
        self.pattern.as_str()
    }

    pub fn metadata(&self) -> (r: &str)
        ensures
            r@ == self@.metadata,
    {
        self.metadata.as_str()
    }

    pub fn separator(&self) -> (r: char)
        ensures
            r == self@.separator,
    {
        self.separator
    }

    /// Builds a symbol table with every marker given explicitly.
    pub fn new(
        fragment_open: String,
        fragment_close: String,
        halt: String,
        insertion: String,
        pattern: String,
        metadata: String,
        separator: char,
    ) -> (r: SymbolKey)
        requires
            fragment_open@.len() >= 1,
            fragment_close@.len() >= 1,
            halt@.len() >= 1,
            insertion@.len() >= 1,
            pattern@.len() >= 1,
            metadata@.len() >= 1,
        ensures
            r@ == (SymbolKeyV {
                fragment_open: fragment_open@,
                fragment_close: fragment_close@,
                halt: halt@,
                insertion: insertion@,
                pattern: pattern@,
                metadata: metadata@,
                separator: separator,
            }),
            r@.wf(),
    {
        SymbolKey { fragment_open, fragment_close, halt, insertion, pattern, metadata, separator }
    }
}

impl Default for SymbolKey {
    /// The default markers. The open and close markers are assembled from
    /// their halves so that this file does not itself open a fragment when
    /// scanned by the tool.
    fn default() -> (r: SymbolKey)
        ensures
            r@ == default_symbols(),
            r@.wf(),
    {
        proof {
            reveal_strlit("@");
            reveal_strlit("<");
            reveal_strlit(">");
            reveal_strlit("@!halt");
            reveal_strlit("@@");
            reveal_strlit("@*");
            reveal_strlit("@?");
        }
        let mut fragment_open = String::from_str("@");
        fragment_open.append("<");
        let mut fragment_close = String::from_str(">");
        fragment_close.append("@");
        let r = SymbolKey {
            fragment_open,
            fragment_close,
            halt: String::from_str("@!halt"),
            insertion: String::from_str("@@"),
            pattern: String::from_str("@*"),
            metadata: String::from_str("@?"),
            separator: '.',
        };
        proof {
            assert(r@.fragment_open =~= default_symbols().fragment_open);
            assert(r@.fragment_close =~= default_symbols().fragment_close);
            assert(r@.halt =~= default_symbols().halt);
            assert(r@.insertion =~= default_symbols().insertion);
            assert(r@.pattern =~= default_symbols().pattern);
            assert(r@.metadata =~= default_symbols().metadata);
        }
        r
    }
}

} // verus!
