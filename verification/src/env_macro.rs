//! The `env!` inline macro of the verifier's sources: the value of an
//! environment variable, named by the macro's one string argument.

use vstd::prelude::*;

verus! {

/// An expression that stands as an argument.
#[derive(Debug)]
pub enum Expr {
    /// A string literal, with its value where the literal is well formed.
    String(Option<String>),
    /// Any other expression.
    Other,
}

/// An argument of the macro.
#[derive(Debug)]
pub enum ArgClause {
    /// An expression alone.
    Unnamed(Expr),
    /// An expression under a name.
    Named,
    /// A name that stands for its own value.
    FieldInitShorthand,
}

/// Why the macro expands to nothing.
#[derive(Clone, Copy, Debug, PartialEq, Eq, Structural)]
pub enum EnvError {
    InvalidNumberOfArguments,
    InvalidVariableName,
    VariableNotSet,
}

/// A variable of the environment with its value.
#[derive(Debug)]
pub struct Variable {
    pub name: String,
    pub value: String,
}

impl EnvError {
    /// The text of the diagnostic.
    pub fn message(&self) -> (text: &'static str)
        ensures
            text@ == match self {
                EnvError::InvalidNumberOfArguments => "Invalid number of arguments"@,
                EnvError::InvalidVariableName => "Invalid environment variable name"@,
                EnvError::VariableNotSet => "Environment variable not set"@,
            },
    {
        match self {
            EnvError::InvalidNumberOfArguments => "Invalid number of arguments",
            EnvError::InvalidVariableName => "Invalid environment variable name",
            EnvError::VariableNotSet => "Environment variable not set",
        }
    }
}

/// The value of an argument that is a string literal alone.
pub open spec fn arg_value(arg_clause: ArgClause) -> Option<Seq<char>> {
    match arg_clause {
        ArgClause::Unnamed(Expr::String(Some(value))) => Some(value@),
        _ => None,
    }
}

/// The value of the first variable of the environment with the given name.
pub open spec fn lookup(environment: Seq<Variable>, name: Seq<char>) -> Option<Seq<char>>
    decreases environment.len(),
{
    if environment.len() == 0 {
        None
    } else if environment[0].name@ == name {
        Some(environment[0].value@)
    } else {
        lookup(environment.drop_first(), name)
    }
}

/// What the macro expands to over the given arguments, in the given
/// environment.
pub open spec fn expansion(args: Seq<ArgClause>, environment: Seq<Variable>) -> Result<
    Seq<char>,
    EnvError,
> {
    if args.len() != 1 {
        Err(EnvError::InvalidNumberOfArguments)
    } else {
        match arg_value(args[0]) {
            None => Err(EnvError::InvalidVariableName),
            Some(name) => match lookup(environment, name) {
                None => Err(EnvError::VariableNotSet),
                Some(value) => Ok(value),
            },
        }
    }
}

/// The value of a literal argument.
pub fn get_arg_value(arg_clause: &ArgClause) -> (r: Option<String>)
    ensures
        r is Some <==> arg_value(*arg_clause) is Some,
        r matches Some(value) ==> Some(value@) == arg_value(*arg_clause),
{
    match arg_clause {
        ArgClause::Unnamed(Expr::String(Some(value))) => Some(value.clone()),
        _ => None,
    }
}

/// The value of the first variable of the environment with the given name.
pub fn lookup_variable(environment: &Vec<Variable>, name: &String) -> (r: Option<String>)
    ensures
        r is Some <==> lookup(environment@, name@) is Some,
        r matches Some(value) ==> Some(value@) == lookup(environment@, name@),
{
    let mut i: usize = 0;
    assert(environment@.skip(0) =~= environment@);
    while i < environment.len()
        invariant
            0 <= i <= environment@.len(),
            lookup(environment@, name@) == lookup(environment@.skip(i as int), name@),
        decreases environment@.len() - i,
    {
        assert(environment@.skip(i as int)[0] == environment@[i as int]);
        assert(environment@.skip(i as int).drop_first() =~= environment@.skip(i + 1));
        if environment[i].name == *name {
            return Some(environment[i].value.clone());
        }
        i = i + 1;
    }
    None
}

/// The expansion of the macro: the value of the environment variable that
/// its one argument, a string literal, names.
pub fn env(args: &Vec<ArgClause>, environment: &Vec<Variable>) -> (r: Result<String, EnvError>)
    ensures
        r is Ok <==> expansion(args@, environment@) is Ok,
        r matches Ok(value) ==> Ok::<Seq<char>, EnvError>(value@) == expansion(args@, environment@),
        r matches Err(error) ==> Err::<Seq<char>, EnvError>(error) == expansion(
            args@,
            environment@,
        ),
{
    if args.len() != 1 {
        return Err(EnvError::InvalidNumberOfArguments);
    }
    let name: String = match get_arg_value(&args[0]) {
        Some(name) => name,
        None => {
            return Err(EnvError::InvalidVariableName);
        },
    };
    match lookup_variable(environment, &name) {
        Some(value) => Ok(value),
        None => Err(EnvError::VariableNotSet),
    }
}

} // verus!
