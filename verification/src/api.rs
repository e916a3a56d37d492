use vstd::prelude::*;

verus! {

/// The uniform envelope every operation's caller receives: a success payload
/// or a failure message, never both.
pub struct ApiResponse<T> {
    pub success: bool,
    pub data: Option<T>,
    pub error: Option<String>,
}

impl<T> ApiResponse<T> {
    /// Wraps a success payload.
    pub fn success(data: T) -> (r: ApiResponse<T>)
        ensures
            r.success == true,
            r.data == Some(data),
            r.error is None,
    {
        ApiResponse { success: true, data: Some(data), error: None }
    }

    /// Wraps a failure message.
    pub fn error(message: String) -> (r: ApiResponse<T>)
        ensures
            r.success == false,
            r.data is None,
            match r.error {
                Some(m) => m@ == message@,
                None => false,
            },
    {
        ApiResponse { success: false, data: None, error: Some(message) }
    }
}

} // verus!
