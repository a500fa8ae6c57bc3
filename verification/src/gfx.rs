use vstd::prelude::*;

verus! {

/// Why a graphics-side operation failed. Every recoverable failure carries
/// descriptive text or the context's error code; the host decides whether to
/// log, retry the frame or abort the session.
#[derive(Debug)]
pub enum GfxError {
    /// The drawing surface, a rendering context or a required object of the
    /// right type could not be obtained.
    ResourceUnavailable(String),
    /// Shader source failed to compile; carries the compiler diagnostic, or
    /// a generic fallback when the platform supplies none.
    CompileFailure(String),
    /// A program failed to link; carries the linker diagnostic, or a generic
    /// fallback when the platform supplies none.
    LinkFailure(String),
    /// A required uniform location could not be resolved on a linked
    /// program; carries the context's error code.
    UniformUnavailable(u32),
    /// A GPU buffer object could not be created.
    BufferAllocationFailure,
}

/// Turns what the platform reported about a shader compilation into a
/// verdict. The compile succeeded exactly when the status flag was read and
/// true; otherwise the verdict is a CompileFailure carrying the compiler's
/// log, or the fixed fallback text when no log is available.
pub fn compile_verdict(status: Option<bool>, log: Option<String>) -> (verdict: Result<
    (),
    GfxError,
>)
    ensures
        verdict is Ok <==> status == Some(true),
        verdict is Err ==> (match verdict {
            Result::Err(GfxError::CompileFailure(message)) => message@ == (match log {
                Option::Some(text) => text@,
                Option::None => "Unknown error creating shader"@,
            }),
            _ => false,
        }),
{
    match status {
        Option::Some(true) => Ok(()),
        _ => Err(
            GfxError::CompileFailure(
                match log {
                    Option::Some(text) => text,
                    Option::None => "Unknown error creating shader".to_owned(),
                },
            ),
        ),
    }
}

/// Turns what the platform reported about a program link into a verdict.
/// The link succeeded exactly when the status flag was read and true;
/// otherwise the verdict is a LinkFailure carrying the linker's log, or the
/// fixed fallback text when no log is available.
pub fn link_verdict(status: Option<bool>, log: Option<String>) -> (verdict: Result<(), GfxError>)
    ensures
        verdict is Ok <==> status == Some(true),
        verdict is Err ==> (match verdict {
            Result::Err(GfxError::LinkFailure(message)) => message@ == (match log {
                Option::Some(text) => text@,
                Option::None => "Unknown error creating program object"@,
            }),
            _ => false,
        }),
{
    match status {
        Option::Some(true) => Ok(()),
        _ => Err(
            GfxError::LinkFailure(
                match log {
                    Option::Some(text) => text,
                    Option::None => "Unknown error creating program object".to_owned(),
                },
            ),
        ),
    }
}

/// The verdict on a uniform-location query: success exactly when a location
/// was found, and otherwise a failure carrying the context's error code.
pub fn uniform_verdict(found: bool, error_code: u32) -> (verdict: Result<(), GfxError>)
    ensures
        verdict is Ok <==> found,
        verdict is Err ==> verdict == Err::<(), GfxError>(GfxError::UniformUnavailable(error_code)),
{
    if found {
        Ok(())
    } else {
        Err(GfxError::UniformUnavailable(error_code))
    }
}

} // verus!
