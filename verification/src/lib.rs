//! A small data-processing framework: a `Dish` holds text or bytes, and
//! operations transform it in place or turn it into a failure that sticks.
//! The `lisp` module is the scripting language that drives the operations.

pub mod lisp;
pub mod number;
pub mod ops;
pub mod table;
pub mod text;

use vstd::prelude::*;
use vstd::string::StringExecFns;
use vstd::std_specs::cmp::PartialEqSpecImpl;
use vstd::std_specs::convert::FromSpecImpl;
use vstd::std_specs::convert::IntoSpec;
use vstd::utf8::encode_utf8;
use crate::table::lemma_table_absent;
use crate::table::lemma_table_found;
use crate::table::lemma_table_push;
use crate::table::table_of;
use crate::text::join3;
use crate::text::same_text;
use crate::text::string_from_utf8_lossy;
use crate::text::string_of_range;
use crate::text::chars_of;
use crate::text::utf8_lossy;

verus! {

/// The error that an operation found in the data of a dish.
#[derive(Debug)]
pub struct DishError(pub String);

impl View for DishError {
    type V = Seq<char>;

    open spec fn view(&self) -> Seq<char> {
        self.0@
    }
}

/// The data in a dish: text or bytes.
#[derive(PartialEq, Eq, Debug)]
pub enum DishData {
    Str(String),
    Bin(Vec<u8>),
}

/// The mathematical model of [`DishData`].
pub enum DishDataV {
    Str(Seq<char>),
    Bin(Seq<u8>),
}

impl DishDataV {
    /// The data as bytes: text in UTF-8, bytes as they are.
    pub open spec fn bytes(self) -> Seq<u8> {
        match self {
            DishDataV::Str(s) => encode_utf8(s),
            DishDataV::Bin(b) => b,
        }
    }
}

impl View for DishData {
    type V = DishDataV;

    open spec fn view(&self) -> DishDataV {
        match self {
            DishData::Str(s) => DishDataV::Str(s@),
            DishData::Bin(b) => DishDataV::Bin(b@),
        }
    }
}

/// A dish: data, or the error of the operation that failed on it.
#[derive(Debug)]
pub enum Dish {
    Success(DishData),
    Failure(DishError),
}

/// The mathematical model of a [`Dish`].
pub enum DishV {
    Success(DishDataV),
    Failure(Seq<char>),
}

impl View for Dish {
    type V = DishV;

    open spec fn view(&self) -> DishV {
        match self {
            Dish::Success(d) => DishV::Success(d@),
            Dish::Failure(e) => DishV::Failure(e@),
        }
    }
}

/// What an operation returns: nothing, or the error it found.
pub type DishResult = Result<(), DishError>;

/// The kind of value that an operation's argument takes.
#[derive(Debug, Clone, Copy, PartialEq, Eq, Structural)]
pub enum OperationArgType {
    Integer,
    String,
}

/// The value of an operation's argument.
#[derive(Debug)]
pub enum OperationArg {
    Integer(i64),
    String(String),
}

/// The mathematical model of an [`OperationArg`].
pub enum OperationArgV {
    Integer(i64),
    String(Seq<char>),
}

impl View for OperationArg {
    type V = OperationArgV;

    open spec fn view(&self) -> OperationArgV {
        match self {
            OperationArg::Integer(i) => OperationArgV::Integer(*i),
            OperationArg::String(s) => OperationArgV::String(s@),
        }
    }
}

impl Clone for OperationArg {
    /// A copy, as [`OperationArg::copy`] makes it.
    fn clone(&self) -> (r: OperationArg)
        ensures
            r@ == self@,
    {
        self.copy()
    }
}

impl From<i64> for OperationArg {
    fn from(v: i64) -> (r: OperationArg) {
        OperationArg::Integer(v)
    }
}

impl FromSpecImpl<i64> for OperationArg {
    open spec fn obeys_from_spec() -> bool {
        true
    }

    open spec fn from_spec(v: i64) -> OperationArg {
        OperationArg::Integer(v)
    }
}

impl From<String> for OperationArg {
    fn from(v: String) -> (r: OperationArg) {
        OperationArg::String(v)
    }
}

impl FromSpecImpl<String> for OperationArg {
    open spec fn obeys_from_spec() -> bool {
        true
    }

    open spec fn from_spec(v: String) -> OperationArg {
        OperationArg::String(v)
    }
}

impl OperationArg {
    /// A copy of the argument.
    pub fn copy(&self) -> (r: OperationArg)
        ensures
            r@ == self@,
    {
        match self {
            OperationArg::Integer(i) => OperationArg::Integer(*i),
            OperationArg::String(s) => OperationArg::String(s.clone()),
        }
    }

    /// The name of the argument's kind: `integer` or `string`.
    pub fn to_text(&self) -> (r: String)
        ensures
            r@ == (match self@ {
                OperationArgV::Integer(_) => "integer"@,
                OperationArgV::String(_) => "string"@,
            }),
    {
        match self {
            OperationArg::Integer(_) => String::from_str("integer"),
            OperationArg::String(_) => String::from_str("string"),
        }
    }
}

/// The arguments handed to an operation, by name. An operation that takes
/// none is handed [`OperationArguments::empty`], which holds no table at
/// all.
#[derive(Debug)]
pub struct OperationArguments {
    inner: Option<Vec<(String, OperationArg)>>,
}

/// The entries of an argument list as mathematical values.
pub open spec fn argument_entries(entries: Seq<(String, OperationArg)>) -> Seq<
    (Seq<char>, OperationArgV),
> {
    Seq::new(entries.len(), |i: int| (entries[i].0@, entries[i].1@))
}

impl View for OperationArguments {
    type V = Option<Map<Seq<char>, OperationArgV>>;

    closed spec fn view(&self) -> Option<Map<Seq<char>, OperationArgV>> {
        match self.inner {
            None => None,
            Some(entries) => Some(table_of(argument_entries(entries@))),
        }
    }
}

/// The arguments with `name` set to `arg`; no table stays no table.
pub open spec fn with_argument(
    args: Option<Map<Seq<char>, OperationArgV>>,
    name: Seq<char>,
    arg: OperationArgV,
) -> Option<Map<Seq<char>, OperationArgV>> {
    match args {
        None => None,
        Some(table) => Some(table.insert(name, arg)),
    }
}

/// What looking up an integer argument gives.
pub open spec fn integer_argument(
    args: Option<Map<Seq<char>, OperationArgV>>,
    name: Seq<char>,
) -> Result<i64, Seq<char>> {
    match args {
        None => Err("empty arguments"@),
        Some(table) => if !table.contains_key(name) {
            Err("no such argument"@)
        } else {
            match table[name] {
                OperationArgV::Integer(i) => Ok(i),
                OperationArgV::String(_) => Err("wrong argument type"@),
            }
        },
    }
}

/// What looking up a string argument gives.
pub open spec fn string_argument(
    args: Option<Map<Seq<char>, OperationArgV>>,
    name: Seq<char>,
) -> Result<Seq<char>, Seq<char>> {
    match args {
        None => Err("empty arguments"@),
        Some(table) => if !table.contains_key(name) {
            Err("no such argument"@)
        } else {
            match table[name] {
                OperationArgV::String(s) => Ok(s),
                OperationArgV::Integer(_) => Err("wrong argument type"@),
            }
        },
    }
}

impl OperationArguments {
    /// A table without entries.
    pub fn new() -> (r: OperationArguments)
        ensures
            r@ == Some(Map::<Seq<char>, OperationArgV>::empty()),
    {
        let entries: Vec<(String, OperationArg)> = Vec::new();
        assert(argument_entries(entries@) =~= Seq::empty());
        OperationArguments { inner: Some(entries) }
    }

    /// No table: what an operation without arguments is handed.
    pub fn empty() -> (r: OperationArguments)
        ensures
            r@ == None::<Map<Seq<char>, OperationArgV>>,
    {
        OperationArguments { inner: None }
    }

    /// Sets the argument `name` to what `data` converts into: an integer
    /// or a string. Where there is no table, nothing changes.
    pub fn insert<T: Into<OperationArg>>(&mut self, name: &str, data: T)
        ensures
            <T as IntoSpec<OperationArg>>::obeys_into_spec() ==> final(self)@ == with_argument(
                old(self)@,
                name@,
                <T as IntoSpec<OperationArg>>::into_spec(data)@,
            ),
    {
        let arg: OperationArg = data.into();
        self.insert_arg(name, arg);
    }

    /// Sets the argument `name` to `arg`. Where there is no table, nothing
    /// changes.
    pub fn insert_arg(&mut self, name: &str, arg: OperationArg)
        ensures
            final(self)@ == with_argument(old(self)@, name@, arg@),
    {
        match &mut self.inner {
            None => {},
            Some(entries) => {
                proof {
                    lemma_table_push(argument_entries(entries@), name@, arg@);
                }
                let ghost before = entries@;
                let owned = name.to_owned();
                entries.push((owned, arg));
                assert(argument_entries(entries@) =~= argument_entries(before).push(
                    (name@, arg@),
                ));
            },
        }
    }

    /// The index of the last entry for `name`, if there is one.
    fn find(entries: &Vec<(String, OperationArg)>, name: &str) -> (r: Option<usize>)
        ensures
            match r {
                Some(i) => i < entries.len() && table_of(argument_entries(entries@)).contains_key(
                    name@,
                ) && table_of(argument_entries(entries@))[name@] == entries@[i as int].1@,
                None => !table_of(argument_entries(entries@)).contains_key(name@),
            },
    {
        let mut i: usize = entries.len();
        while i > 0
            invariant
                i <= entries.len(),
                forall|j: int| i <= j < entries.len() ==> entries@[j].0@ != name@,
            decreases i,
        {
            i = i - 1;
            if same_text(entries[i].0.as_str(), name) {
                proof {
                    lemma_table_found(argument_entries(entries@), name@, i as int);
                }
                return Some(i);
            }
        }
        proof {
            lemma_table_absent(argument_entries(entries@), name@);
        }
        None
    }

    /// The integer argument `name`.
    pub fn get_integer(&self, name: &str) -> (r: Result<i64, DishError>)
        ensures
            match integer_argument(self@, name@) {
                Ok(i) => r == Ok::<i64, DishError>(i),
                Err(e) => r is Err && r->Err_0@ == e,
            },
    {
        match &self.inner {
            None => Err(DishError(String::from_str("empty arguments"))),
            Some(entries) => match OperationArguments::find(entries, name) {
                None => Err(DishError(String::from_str("no such argument"))),
                Some(i) => match &entries[i].1 {
                    OperationArg::Integer(v) => Ok(*v),
                    OperationArg::String(_) => Err(
                        DishError(String::from_str("wrong argument type")),
                    ),
                },
            },
        }
    }

    /// The string argument `name`.
    pub fn get_string(&self, name: &str) -> (r: Result<String, DishError>)
        ensures
            match string_argument(self@, name@) {
                Ok(s) => r is Ok && r->Ok_0@ == s,
                Err(e) => r is Err && r->Err_0@ == e,
            },
    {
        match &self.inner {
            None => Err(DishError(String::from_str("empty arguments"))),
            Some(entries) => match OperationArguments::find(entries, name) {
                None => Err(DishError(String::from_str("no such argument"))),
                Some(i) => match &entries[i].1 {
                    OperationArg::String(s) => Ok(s.clone()),
                    OperationArg::Integer(_) => Err(
                        DishError(String::from_str("wrong argument type")),
                    ),
                },
            },
        }
    }

    /// A copy of the arguments.
    pub fn copy(&self) -> (r: OperationArguments)
        ensures
            r@ == self@,
    {
        match &self.inner {
            None => OperationArguments { inner: None },
            Some(entries) => {
                let mut out: Vec<(String, OperationArg)> = Vec::new();
                let mut i: usize = 0;
                while i < entries.len()
                    invariant
                        i <= entries.len(),
                        out@.len() == i,
                        forall|j: int|
                            0 <= j < i ==> out@[j].0@ == entries@[j].0@ && out@[j].1@
                                == entries@[j].1@,
                    decreases entries.len() - i,
                {
                    out.push((entries[i].0.clone(), entries[i].1.copy()));
                    i = i + 1;
                }
                assert(argument_entries(out@) =~= argument_entries(entries@));
                OperationArguments { inner: Some(out) }
            },
        }
    }
}


/// The text `s`, cut after `limit` characters and marked with `...` where
/// it is longer.
pub open spec fn clipped(s: Seq<char>, limit: nat) -> Seq<char> {
    if s.len() > limit {
        s.take(limit as int) + "..."@
    } else {
        s
    }
}

/// How a dish's data is shown: text between quotes, cut after 80
/// characters; bytes between brackets, decoded leniently and cut after 32.
pub open spec fn data_text(d: DishDataV) -> Seq<char> {
    match d {
        DishDataV::Str(s) => "\""@ + clipped(s, 80) + "\""@,
        DishDataV::Bin(b) => "["@ + clipped(utf8_lossy(b), 32) + "]"@,
    }
}

/// How an operation's error is shown.
pub open spec fn error_text(message: Seq<char>) -> Seq<char> {
    "dish error: "@ + message
}

/// How a dish is shown.
pub open spec fn dish_text(d: DishV) -> Seq<char> {
    match d {
        DishV::Success(data) => "Dish("@ + data_text(data) + ")"@,
        DishV::Failure(message) => "error: "@ + error_text(message),
    }
}

/// Executable form of [`clipped`].
fn clip(s: &str, limit: usize) -> (r: String)
    ensures
        r@ == clipped(s@, limit as nat),
{
    let chars = chars_of(s);
    if chars.len() > limit {
        let mut out = string_of_range(&chars, 0, limit);
        out.append("...");
        out
    } else {
        s.to_owned()
    }
}

impl DishError {
    /// The error as shown to the user.
    pub fn to_text(&self) -> (r: String)
        ensures
            r@ == error_text(self@),
    {
        let mut out = String::from_str("dish error: ");
        out.append(self.0.as_str());
        out
    }

    /// A copy of the error.
    pub fn copy(&self) -> (r: DishError)
        ensures
            r@ == self@,
    {
        DishError(self.0.clone())
    }
}

impl DishData {
    /// The data as bytes: text in UTF-8, bytes as they are.
    pub fn as_bytes(&self) -> (r: &[u8])
        ensures
            r@ == self@.bytes(),
    {
        match self {
            DishData::Str(s) => s.as_str().as_bytes(),
            DishData::Bin(b) => b.as_slice(),
        }
    }

    /// The data as shown to the user.
    pub fn to_text(&self) -> (r: String)
        ensures
            r@ == data_text(self@),
    {
        match self {
            DishData::Str(s) => {
                let body = clip(s.as_str(), 80);
                join3("\"", body.as_str(), "\"")
            },
            DishData::Bin(b) => {
                let decoded = string_from_utf8_lossy(b.as_slice());
                let body = clip(decoded.as_str(), 32);
                join3("[", body.as_str(), "]")
            },
        }
    }

    /// A copy of the data.
    pub fn copy(&self) -> (r: DishData)
        ensures
            r@ == self@,
    {
        match self {
            DishData::Str(s) => DishData::Str(s.clone()),
            DishData::Bin(b) => DishData::Bin(b.clone()),
        }
    }

    /// Whether two pieces of data are of the same kind and hold the same
    /// characters or bytes.
    pub fn equals(&self, other: &DishData) -> (r: bool)
        ensures
            r == (self@ == other@),
    {
        match (self, other) {
            (DishData::Str(a), DishData::Str(b)) => same_text(a.as_str(), b.as_str()),
            (DishData::Bin(a), DishData::Bin(b)) => {
                if a.len() != b.len() {
                    return false;
                }
                let mut i: usize = 0;
                while i < a.len()
                    invariant
                        i <= a.len(),
                        a.len() == b.len(),
                        self@ == DishDataV::Bin(a@),
                        other@ == DishDataV::Bin(b@),
                        forall|j: int| 0 <= j < i ==> a@[j] == b@[j],
                    decreases a.len() - i,
                {
                    if a[i] != b[i] {
                        return false;
                    }
                    i = i + 1;
                }
                assert(a@ =~= b@);
                true
            },
            _ => false,
        }
    }
}

impl Dish {
    /// A dish of text.
    pub fn from_string(data: String) -> (r: Dish)
        ensures
            r@ == DishV::Success(DishDataV::Str(data@)),
    {
        Dish::Success(DishData::Str(data))
    }

    /// A dish of bytes.
    pub fn from_bytes(data: Vec<u8>) -> (r: Dish)
        ensures
            r@ == DishV::Success(DishDataV::Bin(data@)),
    {
        Dish::Success(DishData::Bin(data))
    }

    /// The dish as shown to the user.
    pub fn to_text(&self) -> (r: String)
        ensures
            r@ == dish_text(self@),
    {
        match self {
            Dish::Success(data) => {
                let body = data.to_text();
                join3("Dish(", body.as_str(), ")")
            },
            Dish::Failure(e) => {
                let body = e.to_text();
                let mut out = String::from_str("error: ");
                out.append(body.as_str());
                out
            },
        }
    }

    /// A copy of the dish.
    pub fn copy(&self) -> (r: Dish)
        ensures
            r@ == self@,
    {
        match self {
            Dish::Success(data) => Dish::Success(data.copy()),
            Dish::Failure(e) => Dish::Failure(e.copy()),
        }
    }
}


/// The transformations that a dish can undergo.
#[derive(Debug, Clone, Copy, PartialEq, Eq, Structural)]
pub enum Operation {
    Rot13,
    Reverse,
    FromBase64,
    ToBase64,
    FromDecimal,
    ToDecimal,
    FromOctal,
    ToOctal,
    FromHex,
    ToHex,
    FromBinary,
    ToBinary,
    FromRadix,
    ToRadix,
    RegexMatch,
    RegexReplace,
    TakeBytes,
    DropBytes,
}

/// What the scripting language needs to know of an operation:
///   * `name`: how it is called, in `lowercase-with-dashes`;
///   * `description`: what it does to the dish, in a few words;
///   * `authors`: who wrote it;
///   * `category`: where it is listed;
///   * `arguments`: the name and the kind of each argument, in order;
///   * `op`: the transformation itself.
#[derive(Debug)]
pub struct OperationInfo {
    pub name: &'static str,
    pub description: &'static str,
    pub authors: Vec<&'static str>,
    pub category: &'static str,
    pub arguments: Vec<(&'static str, OperationArgType)>,
    pub op: Operation,
}

/// The mathematical model of an [`OperationInfo`].
pub struct OperationInfoV {
    pub name: Seq<char>,
    pub description: Seq<char>,
    pub authors: Seq<Seq<char>>,
    pub category: Seq<char>,
    pub arguments: Seq<(Seq<char>, OperationArgType)>,
    pub op: Operation,
}

impl View for OperationInfo {
    type V = OperationInfoV;

    open spec fn view(&self) -> OperationInfoV {
        OperationInfoV {
            name: self.name@,
            description: self.description@,
            authors: Seq::new(self.authors@.len(), |i: int| self.authors@[i]@),
            category: self.category@,
            arguments: Seq::new(
                self.arguments@.len(),
                |i: int| (self.arguments@[i].0@, self.arguments@[i].1),
            ),
            op: self.op,
        }
    }
}

impl OperationInfo {
    /// A copy of the descriptor.
    pub fn copy(&self) -> (r: OperationInfo)
        ensures
            r@ == self@,
    {
        let mut authors: Vec<&'static str> = Vec::new();
        let mut i: usize = 0;
        while i < self.authors.len()
            invariant
                i <= self.authors.len(),
                authors@.len() == i,
                forall|j: int| 0 <= j < i ==> authors@[j] == self.authors@[j],
            decreases self.authors.len() - i,
        {
            authors.push(self.authors[i]);
            i = i + 1;
        }
        let mut arguments: Vec<(&'static str, OperationArgType)> = Vec::new();
        let mut k: usize = 0;
        while k < self.arguments.len()
            invariant
                k <= self.arguments.len(),
                arguments@.len() == k,
                forall|j: int| 0 <= j < k ==> arguments@[j] == self.arguments@[j],
            decreases self.arguments.len() - k,
        {
            arguments.push(self.arguments[k]);
            k = k + 1;
        }
        let r = OperationInfo {
            name: self.name,
            description: self.description,
            authors,
            category: self.category,
            arguments,
            op: self.op,
        };
        assert(r@.arguments =~= self@.arguments);
        assert(r@.authors =~= self@.authors);
        r
    }
}

impl Clone for OperationInfo {
    /// A copy, as [`OperationInfo::copy`] makes it.
    fn clone(&self) -> (r: OperationInfo)
        ensures
            r@ == self@,
    {
        self.copy()
    }
}

impl PartialEq for OperationInfo {
    /// Two descriptors are equal when they describe the operation of the
    /// same name.
    fn eq(&self, other: &OperationInfo) -> (r: bool) {
        same_text(self.name, other.name)
    }
}

impl PartialEqSpecImpl for OperationInfo {
    open spec fn obeys_eq_spec() -> bool {
        true
    }

    open spec fn eq_spec(&self, other: &OperationInfo) -> bool {
        self.name@ == other.name@
    }
}


impl Clone for DishError {
    /// A copy, as [`DishError::copy`] makes it.
    fn clone(&self) -> (r: DishError)
        ensures
            r@ == self@,
    {
        self.copy()
    }
}

impl Clone for DishData {
    /// A copy, as [`DishData::copy`] makes it.
    fn clone(&self) -> (r: DishData)
        ensures
            r@ == self@,
    {
        self.copy()
    }
}

impl Clone for Dish {
    /// A copy, as [`Dish::copy`] makes it.
    fn clone(&self) -> (r: Dish)
        ensures
            r@ == self@,
    {
        self.copy()
    }
}

impl Clone for OperationArguments {
    /// A copy, as [`OperationArguments::copy`] makes it.
    fn clone(&self) -> (r: OperationArguments)
        ensures
            r@ == self@,
    {
        self.copy()
    }
}

/// What applying an operation makes of a dish: a success is transformed,
/// or becomes the failure that the operation found; a failure stays as it
/// is.
pub open spec fn applied(
    dish: DishV,
    op: Operation,
    args: Option<Map<Seq<char>, OperationArgV>>,
) -> DishV {
    match dish {
        DishV::Failure(_) => dish,
        DishV::Success(data) => match crate::ops::outcome(op, args, data) {
            Ok(after) => DishV::Success(after),
            Err(message) => DishV::Failure(message),
        },
    }
}

/// What applying the first `n` of `steps`, one after the other, makes of a
/// dish.
pub open spec fn applied_all(
    dish: DishV,
    steps: Seq<(Operation, Option<Map<Seq<char>, OperationArgV>>)>,
    n: nat,
) -> DishV
    decreases n,
{
    if n == 0 || n > steps.len() {
        dish
    } else {
        applied(applied_all(dish, steps, (n - 1) as nat), steps[n - 1].0, steps[n - 1].1)
    }
}

/// A failure sticks: whatever operations are applied to a failed dish,
/// and however many, it stays the failure it was, with the same message.
pub proof fn lemma_failure_sticks(
    message: Seq<char>,
    steps: Seq<(Operation, Option<Map<Seq<char>, OperationArgV>>)>,
    n: nat,
)
    ensures
        applied_all(DishV::Failure(message), steps, n) == DishV::Failure(message),
    decreases n,
{
    if n > 0 && n <= steps.len() {
        lemma_failure_sticks(message, steps, (n - 1) as nat);
    }
}

impl Dish {
    /// Applies an operation to the dish, as [`applied`] says, and returns
    /// the dish.
    pub fn apply(&mut self, op: Operation, args: &OperationArguments) -> (r: &mut Dish)
        ensures
            r@ == applied(old(self)@, op, args@),
            *final(self) == *final(r),
    {
        match self {
            Dish::Success(data) => {
                match crate::ops::run(op, args, data) {
                    Ok(()) => {},
                    Err(e) => {
                        *self = Dish::Failure(e);
                    },
                }
            },
            Dish::Failure(_) => {},
        }
        self
    }
}

} // verus!
