//! The operations on dishes. Each one takes its arguments and the data of
//! a dish, and either changes the data or says why it cannot.
//!
//! An operation is written in three parts: a spec function that says what
//! it makes of the data, a function that tells the language its name and
//! arguments, and the function that does the work.

pub mod data_format;
pub mod textual;
pub mod utility;

use vstd::prelude::*;
use vstd::string::StringExecFns;
use crate::DishData;
use crate::DishDataV;
use crate::DishError;
use crate::DishResult;
use crate::Operation;
use crate::OperationArgV;
use crate::OperationArguments;
use crate::OperationInfo;
use crate::OperationInfoV;

verus! {

/// Whether an operation did what is expected of it: it changed the data as
/// said, or it returned the error said and left the data alone.
pub open spec fn holds(
    expected: Result<DishDataV, Seq<char>>,
    r: DishResult,
    before: DishDataV,
    after: DishDataV,
) -> bool {
    match expected {
        Ok(data) => r is Ok && after == data,
        Err(message) => r is Err && r->Err_0@ == message && after == before,
    }
}

/// The failure with the given message.
pub fn failure(message: &str) -> (r: DishResult)
    ensures
        r is Err,
        r->Err_0@ == message@,
{
    Err(DishError(String::from_str(message)))
}


/// What an operation makes of the data of a dish, given its arguments:
/// the new data, or the message of its error.
pub open spec fn outcome(
    op: Operation,
    args: Option<Map<Seq<char>, OperationArgV>>,
    data: DishDataV,
) -> Result<DishDataV, Seq<char>> {
    match op {
        Operation::Rot13 => textual::rot13_outcome(args, data),
        Operation::Reverse => textual::reverse_outcome(data),
        Operation::FromBase64 => data_format::from_base64_outcome(data),
        Operation::ToBase64 => data_format::to_base64_outcome(data),
        Operation::FromDecimal => data_format::from_decimal_outcome(data),
        Operation::ToDecimal => data_format::to_decimal_outcome(data),
        Operation::FromOctal => data_format::from_octal_outcome(data),
        Operation::ToOctal => data_format::to_octal_outcome(data),
        Operation::FromHex => data_format::from_hex_outcome(data),
        Operation::ToHex => data_format::to_hex_outcome(data),
        Operation::FromBinary => data_format::from_binary_outcome(data),
        Operation::ToBinary => data_format::to_binary_outcome(data),
        Operation::FromRadix => data_format::from_radix_outcome(args, data),
        Operation::ToRadix => data_format::to_radix_outcome(args, data),
        Operation::RegexMatch => data_format::regex_match_outcome(args, data),
        Operation::RegexReplace => data_format::regex_replace_outcome(args, data),
        Operation::TakeBytes => utility::take_bytes_outcome(args, data),
        Operation::DropBytes => utility::drop_bytes_outcome(args, data),
    }
}

/// Runs an operation on the data of a dish.
pub fn run(op: Operation, args: &OperationArguments, dish: &mut DishData) -> (r: DishResult)
    ensures
        holds(outcome(op, args@, old(dish)@), r, old(dish)@, final(dish)@),
{
    match op {
        Operation::Rot13 => textual::rot13(args, dish),
        Operation::Reverse => textual::reverse(args, dish),
        Operation::FromBase64 => data_format::from_base64(args, dish),
        Operation::ToBase64 => data_format::to_base64(args, dish),
        Operation::FromDecimal => data_format::from_decimal(args, dish),
        Operation::ToDecimal => data_format::to_decimal(args, dish),
        Operation::FromOctal => data_format::from_octal(args, dish),
        Operation::ToOctal => data_format::to_octal(args, dish),
        Operation::FromHex => data_format::from_hex(args, dish),
        Operation::ToHex => data_format::to_hex(args, dish),
        Operation::FromBinary => data_format::from_binary(args, dish),
        Operation::ToBinary => data_format::to_binary(args, dish),
        Operation::FromRadix => data_format::from_radix(args, dish),
        Operation::ToRadix => data_format::to_radix(args, dish),
        Operation::RegexMatch => data_format::regex_match(args, dish),
        Operation::RegexReplace => data_format::regex_replace(args, dish),
        Operation::TakeBytes => utility::take_bytes(args, dish),
        Operation::DropBytes => utility::drop_bytes(args, dish),
    }
}

/// The operations that the language knows, in the order in which they are
/// installed.
pub open spec fn operation_table() -> Seq<OperationInfoV> {
    seq![
        textual::rot13_info(),
        textual::reverse_info(),
        data_format::from_base64_info(),
        data_format::to_base64_info(),
        data_format::from_decimal_info(),
        data_format::to_decimal_info(),
        data_format::from_octal_info(),
        data_format::to_octal_info(),
        data_format::to_hex_info(),
        data_format::from_hex_info(),
        data_format::from_binary_info(),
        data_format::to_binary_info(),
        data_format::from_radix_info(),
        data_format::to_radix_info(),
    ]
}

/// The models of a list of descriptors.
pub open spec fn info_views(v: Seq<OperationInfo>) -> Seq<OperationInfoV> {
    Seq::new(v.len(), |i: int| v[i]@)
}

/// The descriptors of the operations that the language knows.
pub fn operations() -> (r: Vec<OperationInfo>)
    ensures
        info_views(r@) == operation_table(),
{
    let mut list: Vec<OperationInfo> = Vec::new();
    list.push(textual::opinfo_rot13());
    list.push(textual::opinfo_reverse());
    list.push(data_format::opinfo_from_base64());
    list.push(data_format::opinfo_to_base64());
    list.push(data_format::opinfo_from_decimal());
    list.push(data_format::opinfo_to_decimal());
    list.push(data_format::opinfo_from_octal());
    list.push(data_format::opinfo_to_octal());
    list.push(data_format::opinfo_to_hex());
    list.push(data_format::opinfo_from_hex());
    list.push(data_format::opinfo_from_binary());
    list.push(data_format::opinfo_to_binary());
    list.push(data_format::opinfo_from_radix());
    list.push(data_format::opinfo_to_radix());
    assert(info_views(list@) =~= operation_table());
    list
}


/// Whether a name is written in lower-case letters, digits and dashes.
pub open spec fn is_kebab_case(name: Seq<char>) -> bool {
    name.len() > 0 && forall|i: int|
        0 <= i < name.len() ==> ('a' <= #[trigger] name[i] <= 'z' || '0' <= name[i] <= '9'
            || name[i] == '-')
}

/// The names of the operations that the language knows are written in
/// lower case with dashes, and no two operations have the same name.
pub proof fn lemma_operation_names()
    ensures
        forall|i: int|
            0 <= i < operation_table().len() ==> is_kebab_case(
                #[trigger] operation_table()[i].name,
            ),
        forall|i: int, j: int|
            0 <= i < j < operation_table().len() ==> #[trigger] operation_table()[i].name
                != #[trigger] operation_table()[j].name,
{
    reveal_strlit("rot13");
    reveal_strlit("reverse");
    reveal_strlit("from-base64");
    reveal_strlit("to-base64");
    reveal_strlit("from-decimal");
    reveal_strlit("to-decimal");
    reveal_strlit("from-octal");
    reveal_strlit("to-octal");
    reveal_strlit("to-hex");
    reveal_strlit("from-hex");
    reveal_strlit("from-binary");
    reveal_strlit("to-binary");
    reveal_strlit("from-radix");
    reveal_strlit("to-radix");
    let t = operation_table();
    assert(t.len() == 14);
    assert(t[0].name.len() == 5 && t[0].name[0] == 'r' && t[0].name[1] == 'o');
    assert(t[1].name.len() == 7 && t[1].name[0] == 'r' && t[1].name[1] == 'e');
    assert(t[2].name.len() == 11 && t[2].name[0] == 'f' && t[2].name[5] == 'b');
    assert(t[3].name.len() == 9 && t[3].name[0] == 't' && t[3].name[3] == 'b');
    assert(t[4].name.len() == 12 && t[4].name[0] == 'f');
    assert(t[5].name.len() == 10 && t[5].name[0] == 't');
    assert(t[6].name.len() == 10 && t[6].name[0] == 'f' && t[6].name[5] == 'o');
    assert(t[7].name.len() == 8 && t[7].name[0] == 't');
    assert(t[8].name.len() == 6 && t[8].name[0] == 't');
    assert(t[9].name.len() == 8 && t[9].name[0] == 'f');
    assert(t[10].name.len() == 11 && t[10].name[0] == 'f' && t[10].name[5] == 'b' && t[10].name[6]
        == 'i');
    assert(t[2].name[6] == 'a');
    assert(t[11].name.len() == 9 && t[11].name[0] == 't' && t[11].name[3] == 'b' && t[11].name[4]
        == 'i');
    assert(t[3].name[4] == 'a');
    assert(t[12].name.len() == 10 && t[12].name[0] == 'f' && t[12].name[5] == 'r');
    assert(t[13].name.len() == 8 && t[13].name[0] == 't' && t[13].name[3] == 'r');
    assert(t[7].name[3] == 'o');
    assert(t[9].name[0] != t[7].name[0] && t[9].name[0] != t[13].name[0]);
    assert forall|i: int| 0 <= i < 14 implies is_kebab_case(#[trigger] t[i].name) by {
        if i == 0 {
        } else if i == 1 {
        } else if i == 2 {
        } else if i == 3 {
        } else if i == 4 {
        } else if i == 5 {
        } else if i == 6 {
        } else if i == 7 {
        } else if i == 8 {
        } else if i == 9 {
        } else if i == 10 {
        } else if i == 11 {
        } else if i == 12 {
        } else {
        }
    }
}

} // verus!
