//! The Mac archive packager.
//!
//! `libtool -static` both packs the members and writes the symbol index,
//! so this builder only collects member paths and plans the one `libtool`
//! run at close time.

use vstd::prelude::*;

use crate::objects::merge::{ToolInvocation, ToolKind};
use crate::objects::syms::names_of;

verus! {

pub struct MacArBuilder {
    pub output_path: String,
    pub obj_paths: Vec<String>,
    pub closed: bool,
}

/// The `libtool` argument list that packs the collected members:
/// `-static -o <output> <members...>`.
pub open spec fn libtool_args_spec(output: Seq<char>, members: Seq<Seq<char>>) -> Seq<Seq<char>> {
    seq!["-static"@, "-o"@, output] + members
}

impl MacArBuilder {
    /// A fresh builder for the archive at `path`.
    pub fn new(path: &String) -> (r: MacArBuilder)
        ensures
            r.output_path@ == path@,
            r.obj_paths@ == Seq::<String>::empty(),
            !r.closed,
    {
        MacArBuilder { output_path: path.clone(), obj_paths: Vec::new(), closed: false }
    }

    /// Record one more member.
    pub fn append_obj(&mut self, path: &String)
        ensures
            final(self).obj_paths@ == old(self).obj_paths@.push(*path),
            final(self).output_path == old(self).output_path,
            final(self).closed == old(self).closed,
    {
        self.obj_paths.push(path.clone());
    }

    /// Close the builder: the first close plans the `libtool` run that
    /// packs every recorded member into the output archive; a repeated
    /// close does nothing.
    pub fn write_obj(&mut self) -> (r: Option<ToolInvocation>)
        ensures
            final(self).obj_paths == old(self).obj_paths,
            final(self).output_path == old(self).output_path,
            final(self).closed,
            old(self).closed ==> r is None,
            !old(self).closed ==> (r matches Some(inv) && inv.tool == ToolKind::Libtool
                && names_of(inv.args@) == libtool_args_spec(
                old(self).output_path@,
                names_of(old(self).obj_paths@),
            )),
    {
        if self.closed {
            return None;
        }
        self.closed = true;
        let mut args: Vec<String> = Vec::new();
        args.push("-static".to_owned());
        args.push("-o".to_owned());
        args.push(self.output_path.clone());
        proof {
            assert(names_of(args@) =~~= seq!["-static"@, "-o"@, self.output_path@]);
        }
        crate::objects::merge::extend_strings(&mut args, &self.obj_paths);
        proof {
            assert(names_of(args@) =~~= libtool_args_spec(
                self.output_path@,
                names_of(self.obj_paths@),
            ));
        }
        Some(ToolInvocation { tool: ToolKind::Libtool, args })
    }
}

} // verus!
