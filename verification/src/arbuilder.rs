//! Builders for the output archive.
//!
//! Two packagers exist: the common one, whose members are written with the
//! ordinary archive format and whose symbol index is added by the archive
//! indexer afterwards, and the Mac one, which hands all members to
//! `libtool` in a single invocation that also writes the index. Both are
//! modelled as verified state machines; the runner performs the file
//! writes and tool runs they prescribe.

pub mod common;
pub mod mac;

use vstd::prelude::*;

use crate::arbuilder::common::CommonArBuilder;
use crate::arbuilder::mac::MacArBuilder;
use crate::archives::ArchiveContents;
use crate::objects::merge::{ToolInvocation, ToolKind};
use crate::objects::syms::names_of;
use crate::process_input_error::ProcessInputError;

verus! {

/// The output archive builder: a tagged choice between the two packagers.
pub enum ArBuilder {
    Common(CommonArBuilder),
    Mac(MacArBuilder),
}

/// The members appended so far.
pub open spec fn builder_members(b: ArBuilder) -> Seq<String> {
    match b {
        ArBuilder::Common(c) => c.appended@,
        ArBuilder::Mac(m) => m.obj_paths@,
    }
}

/// Whether the builder was already closed.
pub open spec fn builder_closed(b: ArBuilder) -> bool {
    match b {
        ArBuilder::Common(c) => c.closed,
        ArBuilder::Mac(m) => m.closed,
    }
}

/// The output archive path the builder was created for.
pub open spec fn builder_output(b: ArBuilder) -> Seq<char> {
    match b {
        ArBuilder::Common(c) => c.output_path@,
        ArBuilder::Mac(m) => m.output_path@,
    }
}

/// The tool run a first close plans: the archive indexer on the finished
/// archive for the common packager, the one `libtool` run that packs and
/// indexes the collected members for the Mac packager.
pub open spec fn close_invocation_ok(r: Option<ToolInvocation>, b: ArBuilder) -> bool {
    match b {
        ArBuilder::Common(c) => r matches Some(inv) && inv.tool == ToolKind::Ranlib && names_of(
            inv.args@,
        ) == seq![c.output_path@],
        ArBuilder::Mac(m) => r matches Some(inv) && inv.tool == ToolKind::Libtool && names_of(
            inv.args@,
        ) == crate::arbuilder::mac::libtool_args_spec(m.output_path@, names_of(m.obj_paths@)),
    }
}

impl ArBuilder {
    /// Record one more member for the output archive.
    pub fn append_obj(&mut self, path: &String)
        requires
            !builder_closed(*old(self)),
        ensures
            builder_members(*final(self)) == builder_members(*old(self)).push(*path),
            !builder_closed(*final(self)),
    {
        match self {
            ArBuilder::Common(c) => c.append_obj(path),
            ArBuilder::Mac(m) => m.append_obj(path),
        }
    }

    /// Close the builder. The first close plans the finalizing tool run;
    /// a repeated close does nothing.
    pub fn close(&mut self) -> (r: Option<ToolInvocation>)
        ensures
            builder_members(*final(self)) == builder_members(*old(self)),
            builder_output(*final(self)) == builder_output(*old(self)),
            builder_closed(*final(self)),
            builder_closed(*old(self)) ==> r is None,
            !builder_closed(*old(self)) ==> close_invocation_ok(r, *old(self))
                && close_invocation_ok(r, *final(self)),
    {
        match self {
            ArBuilder::Common(c) => c.finalize_index(),
            ArBuilder::Mac(m) => m.write_obj(),
        }
    }
}

/// The builder used on the host platform when the inputs give no clear
/// answer: the Mac packager on a macOS host, the common one elsewhere.
pub fn host_platform_builder(host_is_macos: bool, path: &String) -> (r: ArBuilder)
    ensures
        builder_members(r) == Seq::<String>::empty(),
        !builder_closed(r),
        builder_output(r) == path@,
        r is Mac <==> host_is_macos,
{
    if host_is_macos {
        ArBuilder::Mac(MacArBuilder::new(path))
    } else {
        ArBuilder::Common(CommonArBuilder::new(path))
    }
}

/// Choose the packager for the detected contents: ELF takes the common
/// builder, Mach-O the Mac one, and unsupported or mixed contents fall
/// back to the host platform's packager; empty input is refused.
pub fn create_ar_builder(
    contents_type: ArchiveContents,
    host_is_macos: bool,
    output: &String,
) -> (r: Result<ArBuilder, ProcessInputError>)
    ensures
        match r {
            Ok(b) => {
                &&& contents_type != ArchiveContents::Empty
                &&& builder_members(b) == Seq::<String>::empty()
                &&& !builder_closed(b)
                &&& builder_output(b) == output@
                &&& contents_type == ArchiveContents::Elf ==> b is Common
                &&& contents_type == ArchiveContents::MachO ==> b is Mac
                &&& (contents_type == ArchiveContents::Other || contents_type
                    == ArchiveContents::Mixed) ==> (b is Mac <==> host_is_macos)
            },
            Err(e) => contents_type == ArchiveContents::Empty && e is Empty,
        },
{
    match contents_type {
        ArchiveContents::Empty => Err(ProcessInputError::Empty),
        ArchiveContents::Elf => Ok(ArBuilder::Common(CommonArBuilder::new(output))),
        ArchiveContents::MachO => Ok(ArBuilder::Mac(MacArBuilder::new(output))),
        ArchiveContents::Other => Ok(host_platform_builder(host_is_macos, output)),
        ArchiveContents::Mixed => Ok(host_platform_builder(host_is_macos, output)),
    }
}

} // verus!
