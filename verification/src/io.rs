//! How the front end talks to the simulator's console: it feeds characters to an input
//! peripheral and takes the characters an output peripheral wrote.

use vstd::prelude::*;
use vstd::utf8::{valid_utf8, decode_utf8};

verus! {

/// An input peripheral the front end can feed characters to, as a terminal would. Gives
/// `None` on errors and characters it does not take.
pub trait InputSink {
    fn put_char(&self, c: char) -> Option<()>;
}

/// An output peripheral the front end can take characters from, as from a terminal. Gives
/// `None` when no characters are there.
pub trait OutputSource {
    fn get_chars(&self) -> Option<String>;
}

/// Calls `String::from_utf8`, which, as its documentation says, gives the string the bytes
/// encode when they are valid UTF-8 and an error otherwise; the error is dropped.
#[verifier::external_body]
fn string_from_utf8(bytes: Vec<u8>) -> (r: Option<String>)
    ensures
        r is Some <==> valid_utf8(bytes@),
        r matches Some(s) ==> s@ == decode_utf8(bytes@),
{
    String::from_utf8(bytes).ok()
}

/// Takes what an output buffer holds, as the characters it encodes: nothing when the buffer
/// is empty; otherwise the buffer is emptied, and its bytes give a string when they are valid
/// UTF-8 (and nothing when they are not).
pub fn take_output(buffer: &mut Vec<u8>) -> (r: Option<String>)
    ensures
        old(buffer)@.len() == 0 ==> r is None && final(buffer)@ == old(buffer)@,
        old(buffer)@.len() > 0 ==> {
            &&& final(buffer)@ == Seq::<u8>::empty()
            &&& (r is Some <==> valid_utf8(old(buffer)@))
            &&& (r matches Some(s) ==> s@ == decode_utf8(old(buffer)@))
        },
{
    if buffer.len() > 0 {
        let mut taken: Vec<u8> = Vec::new();
        std::mem::swap(buffer, &mut taken);
        string_from_utf8(taken)
    } else {
        None
    }
}

} // verus!
