//! The common archive packager.
//!
//! Members are written in the ordinary archive format (the runner performs
//! the writes, one per recorded member, in order), and the first close
//! plans the archive-indexer run that adds the symbol index.

use vstd::prelude::*;

use crate::objects::merge::{ToolInvocation, ToolKind};
use crate::objects::syms::names_of;

verus! {

pub struct CommonArBuilder {
    pub output_path: String,
    pub appended: Vec<String>,
    pub closed: bool,
}

impl CommonArBuilder {
    /// A fresh builder for the archive at `path`.
    pub fn new(path: &String) -> (r: CommonArBuilder)
        ensures
            r.output_path@ == path@,
            r.appended@ == Seq::<String>::empty(),
            !r.closed,
    {
        CommonArBuilder { output_path: path.clone(), appended: Vec::new(), closed: false }
    }

    /// Record one more member.
    pub fn append_obj(&mut self, path: &String)
        ensures
            final(self).appended@ == old(self).appended@.push(*path),
            final(self).output_path == old(self).output_path,
            final(self).closed == old(self).closed,
    {
        self.appended.push(path.clone());
    }

    /// Close the builder: the first close plans the archive-indexer run on
    /// the finished archive; a repeated close does nothing.
    pub fn finalize_index(&mut self) -> (r: Option<ToolInvocation>)
        ensures
            final(self).appended == old(self).appended,
            final(self).output_path == old(self).output_path,
            final(self).closed,
            old(self).closed ==> r is None,
            !old(self).closed ==> (r matches Some(inv) && inv.tool == ToolKind::Ranlib
                && names_of(inv.args@) == seq![old(self).output_path@]),
    {
        if self.closed {
            return None;
        }
        self.closed = true;
        Some(crate::archives::create_index(&self.output_path))
    }
}

} // verus!
