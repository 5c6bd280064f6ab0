//! Reasons why symbolic execution stops.

use vstd::prelude::*;

verus! {

/// Why a program cannot be executed symbolically.
#[derive(Clone, Copy, Debug, PartialEq, Eq, Structural)]
pub enum ExecError {
    /// An array type where only named types are supported.
    ArrayTypeUnsupported,
    /// A map type where only named types are supported.
    MapTypeUnsupported,
    /// A tuple type where only named types are supported.
    TupleTypeUnsupported,
    /// A function type used as a value type.
    FunctionTypeUnsupported,
    /// A variable declared with a function type.
    FunctionTypeNotAllowed,
    /// An array used where a scalar is needed.
    ArrayAsScalar,
    /// A struct used where a scalar is needed.
    StructAsScalar,
    /// The supply of fresh symbols is exhausted.
    FreshExhausted,
    /// A constant left its range while expressions were folded.
    ConstantOverflow,
    /// A type that has no scalar sort.
    UnmappableType,
    /// An array index that is not a concrete integer.
    IndexNotConcrete,
    /// A field without a declared type.
    MissingFieldType,
    /// A type name that is not declared.
    InvalidTypeName,
    /// A struct that contains itself.
    RecursiveStruct,
    /// A value of a function type.
    FunctionValue,
    /// An evaluation that should have had exactly one result.
    NotSingle,
    /// A name that has not been resolved to a binding.
    UnresolvedId,
    /// A variable without a node in the store.
    UnboundVariable,
    /// A name without a declared type.
    NoStaticType,
    /// A struct assigned a value that is not symbolic.
    StructNeedsSymbol,
    /// An array assigned as a whole.
    ArrayNeedsElement,
    /// A field selected from a value that is not a struct.
    FieldOnNonStruct,
    /// A field that its struct does not have.
    UnknownField,
    /// A field without a node in the store.
    FieldNotMaterialized,
    /// An array element without a node in the store.
    ElementNotMaterialized,
    /// An index into a value that is not an array.
    IndexOnNonArray,
    /// An index beyond the length of its array.
    IndexOutOfBounds,
    /// An assignment to a part of an array element.
    NestedArrayWrite,
    /// An assignment through a map index.
    MapAssignment,
    /// A selection that does not fit the shape of the node.
    ShapeMismatch,
    /// A callee that is neither a function nor a method.
    UnsupportedCallee,
    /// A struct without a member table.
    MissingMembers,
    /// A method that its struct does not have.
    UnknownMethod,
    /// A call of a member that is not a method.
    NotAMethod,
    /// A receiver that is not a struct.
    ReceiverType,
    /// A receiver that is not a place.
    NotAPlace,
    /// An operator that does not yield a truth value.
    NonBooleanOperator,
    /// A built-in function called with the wrong number of arguments.
    BuiltinArity,
    /// A cast that the field solver cannot represent.
    CastNotAllowed,
    /// A bit index that is not a number of a bit.
    BitIndex,
    /// A word taken of something that is not a 32-bit variable.
    WordArgument,
    /// A built-in function or method that does not exist.
    UnsupportedBuiltin,
    /// A name that is neither bound nor a built-in constant.
    UnresolvedPath,
    /// A struct or an array where a scalar is needed.
    NotAScalar,
    /// A map index into something that is not a map variable.
    NotAMap,
    /// A projection other than the previous clock and the value.
    UnknownProjection,
    /// A map index without exactly a clock and an address.
    MapArity,
    /// A map index without a projection.
    MapNeedsProjection,
    /// An evaluation without a result.
    NoValue,
    /// The value of a function that returns none.
    VoidValue,
    /// A variable declared with a type that is not scalar.
    NonScalarVariable,
    /// A lookup with too few arguments.
    LookupArity,
    /// A lookup with an operation that does not exist.
    UnsupportedOpcode,
    /// A lookup with an operation that is not a concrete integer.
    OpcodeNotConcrete,
    /// A lookup in a table that does not exist.
    UnsupportedChip,
    /// A method called without a receiver.
    NoReceiver,
    /// A call with too few arguments.
    TooFewArguments,
    /// A call with too many arguments.
    TooManyArguments,
    /// An aggregate argument that is not a place.
    ArgumentNotAPlace,
    /// A call of a function without a body.
    MissingFunction,
    /// Expressions, statements and calls nested too deeply.
    TooDeep,
    /// A call or a statement without a successor state.
    NoSuccessor,
    /// An expression that is not a condition.
    UnsupportedCondition,
    /// A range of a type without bounds.
    UnboundedType,
    /// A loop bound that is not a constant.
    BoundNotConcrete,
}

} // verus!
