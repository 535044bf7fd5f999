//! How large the arguments of a transaction may be: queued arguments stay in memory.
use vstd::prelude::*;

use crate::error::{answer, ErrorKind, ServiceError};
use crate::text::{decimal, push_decimal, texts};

verus! {

/// How many bytes the strings of a request may have in all.
pub const MAX_TRANSACTION_ARG_BYTES: usize = 16 * 1024 * 1024;

/// How many strings a request may have in all: each takes memory however short it is.
pub const MAX_TRANSACTION_ARG_ITEMS: usize = 65_536;

/// The bytes of a list of texts in all.
pub open spec fn total_bytes(s: Seq<Seq<char>>) -> nat
    decreases s.len(),
{
    if s.len() == 0 {
        0
    } else {
        total_bytes(s.drop_last()) + vstd::utf8::encode_utf8(s.last()).len()
    }
}

/// What a request with these arguments is answered.
pub open spec fn size_check(items: nat, bytes: nat) -> Result<(), (ErrorKind, Seq<char>)> {
    if items > MAX_TRANSACTION_ARG_ITEMS {
        Err(
            (
                ErrorKind::LimitsExceeded,
                "Too many transaction arguments ("@ + decimal(items) + ", limit "@ + decimal(
                    MAX_TRANSACTION_ARG_ITEMS as nat,
                ) + ")"@,
            ),
        )
    } else if bytes > MAX_TRANSACTION_ARG_BYTES {
        Err(
            (
                ErrorKind::LimitsExceeded,
                "Transaction arguments too large ("@ + decimal(bytes) + " bytes, limit "@ + decimal(
                    MAX_TRANSACTION_ARG_BYTES as nat,
                ) + ")"@,
            ),
        )
    } else {
        Ok(())
    }
}

fn sum_bytes(list: &[String]) -> (total: u128)
    requires
        list@.len() <= MAX_TRANSACTION_ARG_ITEMS,
    ensures
        total == total_bytes(texts(list@)),
        total <= MAX_TRANSACTION_ARG_ITEMS * 0x1_0000_0000_0000_0000,
{
    let mut total: u128 = 0;
    let mut i: usize = 0;
    assert(texts(list@).subrange(0, 0) =~= seq![]);
    while i < list.len()
        invariant
            list@.len() <= MAX_TRANSACTION_ARG_ITEMS,
            i <= list.len(),
            total == total_bytes(texts(list@).subrange(0, i as int)),
            total <= i * 0x1_0000_0000_0000_0000,
        decreases list.len() - i,
    {
        proof {
            let upto = texts(list@).subrange(0, i + 1);
            assert(upto.drop_last() =~= texts(list@).subrange(0, i as int));
            assert(upto.last() == list@[i as int]@);
        }
        let n: usize = list[i].as_str().as_bytes().len();
        total = total + n as u128;
        i = i + 1;
    }
    assert(texts(list@).subrange(0, list.len() as int) =~= texts(list@));
    total
}

/// Whether the arguments of a transaction are small enough: both in number and in bytes.
pub fn check_arg_size(install: &[String], remove: &[String]) -> (r: Result<(), ServiceError>)
    ensures
        answer(r) == size_check(
            install@.len() + remove@.len(),
            total_bytes(texts(install@)) + total_bytes(texts(remove@)),
        ),
{
    let items: u128 = install.len() as u128 + remove.len() as u128;
    if items > MAX_TRANSACTION_ARG_ITEMS as u128 {
        let mut message = "Too many transaction arguments (".to_owned();
        push_decimal(&mut message, items);
        message.append(", limit ");
        push_decimal(&mut message, MAX_TRANSACTION_ARG_ITEMS as u128);
        message.append(")");
        return Err(ServiceError { kind: ErrorKind::LimitsExceeded, message });
    }
    let total: u128 = sum_bytes(install) + sum_bytes(remove);
    if total > MAX_TRANSACTION_ARG_BYTES as u128 {
        let mut message = "Transaction arguments too large (".to_owned();
        push_decimal(&mut message, total);
        message.append(" bytes, limit ");
        push_decimal(&mut message, MAX_TRANSACTION_ARG_BYTES as u128);
        message.append(")");
        return Err(ServiceError { kind: ErrorKind::LimitsExceeded, message });
    }
    Ok(())
}

} // verus!
