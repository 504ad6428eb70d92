//! Operations that cut the data of a dish.

use vstd::prelude::*;
use crate::integer_argument;
use crate::ops::failure;
use crate::ops::holds;
use crate::DishData;
use crate::DishDataV;
use crate::DishResult;
use crate::Operation;
use crate::OperationArgType;
use crate::OperationArgV;
use crate::OperationArguments;
use crate::OperationInfo;
use crate::OperationInfoV;

verus! {

/// The smaller of `n` and `len`.
pub open spec fn capped(n: i64, len: nat) -> int {
    if n < len {
        n as int
    } else {
        len as int
    }
}

/// What `take-bytes` makes of the data: its first `n` bytes, or all of
/// them where it has fewer. A negative `n` is an error.
pub open spec fn take_bytes_outcome(
    args: Option<Map<Seq<char>, OperationArgV>>,
    data: DishDataV,
) -> Result<DishDataV, Seq<char>> {
    match integer_argument(args, "n"@) {
        Err(e) => Err(e),
        Ok(n) => if n < 0 {
            Err("amount to take must be nonnegative"@)
        } else {
            Ok(DishDataV::Bin(data.bytes().take(capped(n, data.bytes().len()))))
        },
    }
}

/// What `drop-bytes` makes of the data: what follows its first `n` bytes.
/// A negative `n` is an error.
pub open spec fn drop_bytes_outcome(
    args: Option<Map<Seq<char>, OperationArgV>>,
    data: DishDataV,
) -> Result<DishDataV, Seq<char>> {
    match integer_argument(args, "n"@) {
        Err(e) => Err(e),
        Ok(n) => if n < 0 {
            Err("integer must be nonnegative"@)
        } else {
            Ok(DishDataV::Bin(data.bytes().skip(capped(n, data.bytes().len()))))
        },
    }
}

/// The bytes `bytes[from..to]`.
fn byte_range(bytes: &[u8], from: usize, to: usize) -> (r: Vec<u8>)
    requires
        from <= to <= bytes@.len(),
    ensures
        r@ == bytes@.subrange(from as int, to as int),
{
    let mut out: Vec<u8> = Vec::new();
    let mut i: usize = from;
    while i < to
        invariant
            from <= i <= to <= bytes@.len(),
            out@ == bytes@.subrange(from as int, i as int),
        decreases to - i,
    {
        out.push(bytes[i]);
        assert(bytes@.subrange(from as int, i + 1) =~= bytes@.subrange(from as int, i as int).push(
            bytes@[i as int],
        ));
        i = i + 1;
    }
    out
}

/// What the language knows of `take-bytes`.
pub open spec fn take_bytes_info() -> OperationInfoV {
    OperationInfoV {
        name: "take-bytes"@,
        description: "takes the specified amount of bytes from the input and discards the rest"@,
        authors: seq!["s-viour"@],
        category: "Utility"@,
        arguments: seq![("n"@, OperationArgType::Integer)],
        op: Operation::TakeBytes,
    }
}

/// Describes `take-bytes`.
pub fn opinfo_take_bytes() -> (r: OperationInfo)
    ensures
        r@ == take_bytes_info(),
{
    let r = OperationInfo {
        name: "take-bytes",
        description: "takes the specified amount of bytes from the input and discards the rest",
        authors: vec!["s-viour"],
        category: "Utility",
        arguments: vec![("n", OperationArgType::Integer)],
        op: Operation::TakeBytes,
    };
    assert(r@.authors =~= take_bytes_info().authors);
    assert(r@.arguments =~= take_bytes_info().arguments);
    r
}

/// Keeps the first `n` bytes of the dish.
pub fn take_bytes(args: &OperationArguments, dish: &mut DishData) -> (r: DishResult)
    ensures
        holds(take_bytes_outcome(args@, old(dish)@), r, old(dish)@, final(dish)@),
{
    let ni = match args.get_integer("n") {
        Err(e) => {
            return Err(e);
        },
        Ok(n) => n,
    };
    if ni < 0 {
        return failure("amount to take must be nonnegative");
    }
    let bytes = dish.as_bytes();
    let n: usize = if (ni as u64) < (bytes.len() as u64) {
        ni as usize
    } else {
        bytes.len()
    };
    let kept = byte_range(bytes, 0, n);
    assert(bytes@.subrange(0, n as int) =~= bytes@.take(n as int));
    *dish = DishData::Bin(kept);
    Ok(())
}

/// What the language knows of `drop-bytes`.
pub open spec fn drop_bytes_info() -> OperationInfoV {
    OperationInfoV {
        name: "drop-bytes"@,
        description: "drops the first `n` bytes from the input and leaves the rest"@,
        authors: seq!["s-viour"@],
        category: "Utility"@,
        arguments: seq![("n"@, OperationArgType::Integer)],
        op: Operation::DropBytes,
    }
}

/// Describes `drop-bytes`.
pub fn opinfo_drop_bytes() -> (r: OperationInfo)
    ensures
        r@ == drop_bytes_info(),
{
    let r = OperationInfo {
        name: "drop-bytes",
        description: "drops the first `n` bytes from the input and leaves the rest",
        authors: vec!["s-viour"],
        category: "Utility",
        arguments: vec![("n", OperationArgType::Integer)],
        op: Operation::DropBytes,
    };
    assert(r@.authors =~= drop_bytes_info().authors);
    assert(r@.arguments =~= drop_bytes_info().arguments);
    r
}

/// Drops the first `n` bytes of the dish.
pub fn drop_bytes(args: &OperationArguments, dish: &mut DishData) -> (r: DishResult)
    ensures
        holds(drop_bytes_outcome(args@, old(dish)@), r, old(dish)@, final(dish)@),
{
    let ni = match args.get_integer("n") {
        Err(e) => {
            return Err(e);
        },
        Ok(n) => n,
    };
    if ni < 0 {
        return failure("integer must be nonnegative");
    }
    let bytes = dish.as_bytes();
    let n: usize = if (ni as u64) < (bytes.len() as u64) {
        ni as usize
    } else {
        bytes.len()
    };
    let kept = byte_range(bytes, n, bytes.len());
    assert(bytes@.subrange(n as int, bytes@.len() as int) =~= bytes@.skip(n as int));
    *dish = DishData::Bin(kept);
    Ok(())
}

} // verus!
