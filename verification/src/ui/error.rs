//! The error of a call to the screen that failed.

use vstd::prelude::*;
use vstd::string::*;

verus! {

/// What a failed call to the screen library reports: the code it returned and
/// a sentence that names the call.
#[derive(Debug)]
pub struct UiError {
    pub ret: i32,
    message: String,
}

impl UiError {
    /// The sentence of the error.
    pub closed spec fn message(&self) -> Seq<char> {
        self.message@
    }

    /// The code that the call returned.
    pub closed spec fn code(&self) -> i32 {
        self.ret
    }

    /// The error of the call `fn_name`, which returned `ret`.
    pub fn new(ret: i32, fn_name: &str) -> (error: UiError)
        ensures
            error.code() == ret,
            error.message() == "Curses call "@ + fn_name@ + " failed"@,
    {
        let mut message = "Curses call ".to_owned();
        message.append(fn_name);
        message.append(" failed");
        UiError { ret, message }
    }

    /// The code that the call returned.
    pub fn ret(&self) -> (ret: i32)
        ensures
            ret == self.code(),
    {
        self.ret
    }

    /// The sentence of the error.
    pub fn description(&self) -> (text: &str)
        ensures
            text@ == self.message(),
    {
        self.message.as_str()
    }
}

} // verus!
