//! The error carried out of commands and event handlers, and storage key conversion.
use vstd::prelude::*;

verus! {

/// An error with a message for the log.
#[derive(Debug)]
pub struct FedBotError {
    msg: String,
}

impl FedBotError {
    /// The error's message.
    pub closed spec fn message_view(&self) -> Seq<char> {
        self.msg@
    }

    /// An error with this message.
    pub fn new(msg: &str) -> (r: FedBotError)
        ensures
            r.message_view() == msg@,
    {
        FedBotError { msg: String::from_str(msg) }
    }

    /// The error's message.
    pub fn message(&self) -> (r: &str)
        ensures
            r@ == self.message_view(),
    {
        self.msg.as_str()
    }
}

/// Reinterpreting an integer's bits as another integer type of the same width (storage keeps
/// 64-bit ids as signed integers).
pub trait ContainBytes<T> {
    spec fn repacked(&self) -> T;

    fn repack(&self) -> (r: T)
        ensures
            r == self.repacked(),
    ;
}

impl ContainBytes<i64> for u64 {
    open spec fn repacked(&self) -> i64 {
        if *self <= i64::MAX as u64 {
            *self as i64
        } else {
            (*self - 0x1_0000_0000_0000_0000int) as i64
        }
    }

    fn repack(&self) -> (r: i64) {
        if *self <= i64::MAX as u64 {
            *self as i64
        } else {
            (*self - 0x8000_0000_0000_0000u64) as i64 + i64::MIN
        }
    }
}

impl ContainBytes<u64> for i64 {
    open spec fn repacked(&self) -> u64 {
        if *self >= 0 {
            *self as u64
        } else {
            (*self + 0x1_0000_0000_0000_0000int) as u64
        }
    }

    fn repack(&self) -> (r: u64) {
        if *self >= 0 {
            *self as u64
        } else {
            (*self - i64::MIN) as u64 + 0x8000_0000_0000_0000u64
        }
    }
}

/// Repacking there and back gives the id back.
pub proof fn lemma_repack_round_trip(id: u64, key: i64)
    ensures
        ContainBytes::<u64>::repacked(&ContainBytes::<i64>::repacked(&id)) == id,
        ContainBytes::<i64>::repacked(&ContainBytes::<u64>::repacked(&key)) == key,
{
}

} // verus!
