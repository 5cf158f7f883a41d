//! Decisions around compiling a shader to validate it.

use vstd::prelude::*;

verus! {

/// The value of `GL_TRUE`, as `glGetShaderiv` reports a successful compile.
pub const GL_TRUE: i32 = 1;

/// What a shader compile reports: nothing when the compile status is
/// `GL_TRUE`; otherwise the length of the information log to keep, which is
/// the reported length without its terminating NUL (zero when the reported
/// length is zero).
pub fn shader_log_length(compile_status: i32, info_len: i32) -> (r: Option<usize>)
    requires
        compile_status != GL_TRUE ==> info_len >= 0,
    ensures
        compile_status == GL_TRUE ==> r is None,
        compile_status != GL_TRUE ==> r == Some(
            if info_len == 0 {
                0usize
            } else {
                (info_len - 1) as usize
            },
        ),
{
    if compile_status == GL_TRUE {
        None
    } else if info_len == 0 {
        Some(0)
    } else {
        Some((info_len - 1) as usize)
    }
}

} // verus!
