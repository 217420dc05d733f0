//! The renderer invocation protocol: the pending-render request produced
//! for each directive occurrence, the exact argument list the external
//! renderer is invoked with, and the rule that judges an invocation's
//! outcome by the artifact's existence alone.

use vstd::prelude::*;
use crate::paths::{spec_join, join_path, dec_digits, u32_digits, copy_range};

verus! {

/// The byte string `drawio`.
pub open spec fn default_renderer_bin() -> Seq<u8> {
    seq![100u8, 114u8, 97u8, 119u8, 105u8, 111u8]
}

pub fn default_renderer_bin_vec() -> (v: Vec<u8>)
    ensures
        v@ == default_renderer_bin(),
{
    let mut v: Vec<u8> = Vec::new();
    v.push(100);
    v.push(114);
    v.push(97);
    v.push(119);
    v.push(105);
    v.push(111);
    proof {
        assert(v@ =~= default_renderer_bin());
    }
    v
}

/// The byte string `-x`.
pub open spec fn arg_export() -> Seq<u8> {
    seq![45u8, 120u8]
}

pub fn arg_export_vec() -> (v: Vec<u8>)
    ensures
        v@ == arg_export(),
{
    let mut v: Vec<u8> = Vec::new();
    v.push(45);
    v.push(120);
    proof {
        assert(v@ =~= arg_export());
    }
    v
}

/// The byte string `-p`.
pub open spec fn arg_page() -> Seq<u8> {
    seq![45u8, 112u8]
}

pub fn arg_page_vec() -> (v: Vec<u8>)
    ensures
        v@ == arg_page(),
{
    let mut v: Vec<u8> = Vec::new();
    v.push(45);
    v.push(112);
    proof {
        assert(v@ =~= arg_page());
    }
    v
}

/// The byte string `-f`.
pub open spec fn arg_format() -> Seq<u8> {
    seq![45u8, 102u8]
}

pub fn arg_format_vec() -> (v: Vec<u8>)
    ensures
        v@ == arg_format(),
{
    let mut v: Vec<u8> = Vec::new();
    v.push(45);
    v.push(102);
    proof {
        assert(v@ =~= arg_format());
    }
    v
}

/// The byte string `svg`.
pub open spec fn arg_svg() -> Seq<u8> {
    seq![115u8, 118u8, 103u8]
}

pub fn arg_svg_vec() -> (v: Vec<u8>)
    ensures
        v@ == arg_svg(),
{
    let mut v: Vec<u8> = Vec::new();
    v.push(115);
    v.push(118);
    v.push(103);
    proof {
        assert(v@ =~= arg_svg());
    }
    v
}

/// The byte string `-o`.
pub open spec fn arg_out() -> Seq<u8> {
    seq![45u8, 111u8]
}

pub fn arg_out_vec() -> (v: Vec<u8>)
    ensures
        v@ == arg_out(),
{
    let mut v: Vec<u8> = Vec::new();
    v.push(45);
    v.push(111);
    proof {
        assert(v@ =~= arg_out());
    }
    v
}

/// The byte string `--no-sandbox`.
pub open spec fn arg_no_sandbox() -> Seq<u8> {
    seq![45u8, 45u8, 110u8, 111u8, 45u8, 115u8, 97u8, 110u8, 100u8, 98u8, 111u8, 120u8]
}

pub fn arg_no_sandbox_vec() -> (v: Vec<u8>)
    ensures
        v@ == arg_no_sandbox(),
{
    let mut v: Vec<u8> = Vec::new();
    v.push(45);
    v.push(45);
    v.push(110);
    v.push(111);
    v.push(45);
    v.push(115);
    v.push(97);
    v.push(110);
    v.push(100);
    v.push(98);
    v.push(111);
    v.push(120);
    proof {
        assert(v@ =~= arg_no_sandbox());
    }
    v
}


/// One pending rendering: which diagram source (a path relative to the
/// project root), which page, and the artifact file name it must
/// produce in the cache directory.
pub struct RenderRequest {
    pub source: Vec<u8>,
    pub page: u32,
    pub artifact: Vec<u8>,
}

/// Mathematical image of a render request.
pub ghost struct RenderRequestV {
    pub source: Seq<u8>,
    pub page: nat,
    pub artifact: Seq<u8>,
}

impl View for RenderRequest {
    type V = RenderRequestV;

    open spec fn view(&self) -> RenderRequestV {
        RenderRequestV { source: self.source@, page: self.page as nat, artifact: self.artifact@ }
    }
}

/// The renderer fails an occurrence exactly when the expected artifact
/// is absent after the invocation (a process that could not be launched
/// leaves it absent as well); its exit status is never consulted.
#[derive(Clone, Copy, Debug, PartialEq, Eq, Structural)]
pub enum RenderError {
    ArtifactMissing,
}

/// Judges one renderer invocation: success exactly when the process was
/// launched and the artifact exists afterwards.
pub fn render_outcome(launched: bool, artifact_exists: bool) -> (r: Result<(), RenderError>)
    ensures
        r is Ok <==> (launched && artifact_exists),
        !(launched && artifact_exists) ==> r == Result::<(), RenderError>::Err(
            RenderError::ArtifactMissing,
        ),
{
    if launched && artifact_exists {
        Ok(())
    } else {
        Err(RenderError::ArtifactMissing)
    }
}

/// The renderer binary name: the configured one, or `drawio` when none
/// is configured.
pub fn get_drawio_bin(configured: &Option<Vec<u8>>) -> (v: Vec<u8>)
    ensures
        (*configured) matches Some(c) ==> v@ == c@,
        (*configured) is None ==> v@ == default_renderer_bin(),
{
    match configured {
        Some(c) => {
            proof {
                assert(c@.subrange(0, c@.len() as int) =~= c@);
            }
            copy_range(c, 0, c.len())
        },
        None => default_renderer_bin_vec(),
    }
}

/// The views of an argument vector's entries.
pub open spec fn argv_view(a: Seq<Vec<u8>>) -> Seq<Seq<u8>> {
    a.map_values(|v: Vec<u8>| v@)
}

/// The exact argument list for one invocation: the binary, export mode
/// with the source resolved under the project root, the page, the
/// output format, the output path inside the cache directory, and the
/// flag that disables OS-level sandboxing for restricted environments.
pub open spec fn spec_command(
    bin: Seq<u8>,
    root: Seq<u8>,
    result_dir_abs: Seq<u8>,
    r: RenderRequestV,
) -> Seq<Seq<u8>> {
    seq![
        bin,
        arg_export(),
        spec_join(root, r.source),
        arg_page(),
        dec_digits(r.page),
        arg_format(),
        arg_svg(),
        arg_out(),
        spec_join(result_dir_abs, r.artifact),
        arg_no_sandbox(),
    ]
}

/// Builds the full argument list (binary first) for rendering one
/// request.
pub fn renderer_command(
    configured_bin: &Option<Vec<u8>>,
    root: &Vec<u8>,
    result_dir_abs: &Vec<u8>,
    req: &RenderRequest,
) -> (argv: Vec<Vec<u8>>)
    ensures
        (*configured_bin) matches Some(b) ==> argv_view(argv@) == spec_command(
            b@,
            root@,
            result_dir_abs@,
            req@,
        ),
        (*configured_bin) is None ==> argv_view(argv@) == spec_command(
            default_renderer_bin(),
            root@,
            result_dir_abs@,
            req@,
        ),
{
    let bin = get_drawio_bin(configured_bin);
    let ghost bin_bytes = bin@;
    let mut argv: Vec<Vec<u8>> = Vec::new();
    argv.push(bin);
    argv.push(arg_export_vec());
    argv.push(join_path(root, &req.source));
    argv.push(arg_page_vec());
    argv.push(u32_digits(req.page));
    argv.push(arg_format_vec());
    argv.push(arg_svg_vec());
    argv.push(arg_out_vec());
    argv.push(join_path(result_dir_abs, &req.artifact));
    argv.push(arg_no_sandbox_vec());
    proof {
        assert(argv_view(argv@) =~= spec_command(bin_bytes, root@, result_dir_abs@, req@));
    }
    argv
}

} // verus!
