use vstd::prelude::*;

verus! {

/// An enumerated value of a pod.
#[derive(Debug, Clone, Copy, PartialEq, Eq, Structural)]
pub struct Id(pub u32);

/// A file descriptor carried in a pod.
#[derive(Debug, Clone, Copy, PartialEq, Eq, Structural)]
pub struct Fd(pub i64);

/// A size carried in a pod.
#[derive(Debug, Clone, Copy, PartialEq, Eq, Structural)]
pub struct Rectangle {
    pub width: u32,
    pub height: u32,
}

/// A ratio carried in a pod.
#[derive(Debug, Clone, Copy, PartialEq, Eq, Structural)]
pub struct Fraction {
    pub num: u32,
    pub denom: u32,
}

/// The values a choice pod offers, each kind with its default.
#[derive(Debug)]
pub enum ChoiceEnum<T> {
    /// No choice: this one value.
    Fixed(T),
    Range { default: T, min: T, max: T },
    Step { default: T, min: T, max: T, step: T },
    Enum { default: T, alternatives: Vec<T> },
    Flags { default: T, flags: Vec<T> },
}

/// A choice pod: its flags and what it offers.
#[derive(Debug)]
pub struct Choice<T>(pub u32, pub ChoiceEnum<T>);

/// A choice pod of one of the kinds a format negotiation reads.
#[derive(Debug)]
pub enum ChoiceValue {
    Bool(Choice<bool>),
    Int(Choice<i32>),
    Long(Choice<i64>),
    Id(Choice<Id>),
    Rectangle(Choice<Rectangle>),
    Fraction(Choice<Fraction>),
    Fd(Choice<Fd>),
    /// A choice over floating-point values, which is never read here.
    Other,
}

/// One keyed property of an object pod.
#[derive(Debug)]
pub struct Property {
    pub key: u32,
    pub value: Value,
}

/// An object pod.
#[derive(Debug)]
pub struct Object {
    pub type_: u32,
    pub id: u32,
    pub properties: Vec<Property>,
}

/// A pod value, as far as format negotiation reads it.
#[derive(Debug)]
pub enum Value {
    /// No value, or a null pointer.
    Empty,
    Bool(bool),
    Id(Id),
    Int(i32),
    Long(i64),
    Rectangle(Rectangle),
    Fraction(Fraction),
    Fd(Fd),
    /// An array of ids.
    IdArray(Vec<Id>),
    Object(Object),
    Choice(ChoiceValue),
    /// A float, string, byte, struct, other array or pointer value.
    Other,
}

/// Picks the default out of a choice.
pub trait ChoiceDefault<T>: Sized {
    spec fn choice_default_spec(&self) -> Result<T, ()>;

    fn choice_default(&self) -> (r: Result<T, ()>)
        ensures
            r == self.choice_default_spec(),
    ;
}

/// Reads a fixed value out of a pod value: the value itself, or the default
/// of a choice.
pub trait Fixate<T>: Sized {
    spec fn fixate_spec(&self) -> Result<T, ()>;

    fn fixate(&self) -> (r: Result<T, ()>)
        ensures
            r == self.fixate_spec(),
    ;
}

/// The default of whichever kind of choice it is.
pub open spec fn default_of<T>(c: ChoiceEnum<T>) -> T {
    match c {
        ChoiceEnum::Fixed(value) => value,
        ChoiceEnum::Range { default, .. } => default,
        ChoiceEnum::Step { default, .. } => default,
        ChoiceEnum::Enum { default, .. } => default,
        ChoiceEnum::Flags { default, .. } => default,
    }
}

fn default_value<T: Copy>(c: &ChoiceEnum<T>) -> (r: T)
    ensures
        r == default_of(*c),
{
    match c {
        ChoiceEnum::Fixed(value) => *value,
        ChoiceEnum::Range { default, .. } => *default,
        ChoiceEnum::Step { default, .. } => *default,
        ChoiceEnum::Enum { default, .. } => *default,
        ChoiceEnum::Flags { default, .. } => *default,
    }
}

impl<T: Copy> ChoiceDefault<T> for Choice<T> {
    open spec fn choice_default_spec(&self) -> Result<T, ()> {
        Ok(default_of(self.1))
    }

    fn choice_default(&self) -> (r: Result<T, ()>) {
        let r = Ok(default_value(&self.1));
        assert(<Choice<T> as ChoiceDefault<T>>::choice_default_spec(self) == r);
        r
    }
}

impl ChoiceDefault<bool> for ChoiceValue {
    open spec fn choice_default_spec(&self) -> Result<bool, ()> {
        match self {
            ChoiceValue::Bool(choice) => Ok(default_of(choice.1)),
            _ => Err(()),
        }
    }

    fn choice_default(&self) -> (r: Result<bool, ()>) {
        if let ChoiceValue::Bool(choice) = self {
            choice.choice_default()
        } else {
            Err(())
        }
    }
}

impl ChoiceDefault<i32> for ChoiceValue {
    open spec fn choice_default_spec(&self) -> Result<i32, ()> {
        match self {
            ChoiceValue::Int(choice) => Ok(default_of(choice.1)),
            _ => Err(()),
        }
    }

    fn choice_default(&self) -> (r: Result<i32, ()>) {
        if let ChoiceValue::Int(choice) = self {
            choice.choice_default()
        } else {
            Err(())
        }
    }
}

impl ChoiceDefault<i64> for ChoiceValue {
    open spec fn choice_default_spec(&self) -> Result<i64, ()> {
        match self {
            ChoiceValue::Long(choice) => Ok(default_of(choice.1)),
            _ => Err(()),
        }
    }

    fn choice_default(&self) -> (r: Result<i64, ()>) {
        if let ChoiceValue::Long(choice) = self {
            choice.choice_default()
        } else {
            Err(())
        }
    }
}

impl ChoiceDefault<Id> for ChoiceValue {
    open spec fn choice_default_spec(&self) -> Result<Id, ()> {
        match self {
            ChoiceValue::Id(choice) => Ok(default_of(choice.1)),
            _ => Err(()),
        }
    }

    fn choice_default(&self) -> (r: Result<Id, ()>) {
        if let ChoiceValue::Id(choice) = self {
            choice.choice_default()
        } else {
            Err(())
        }
    }
}

impl ChoiceDefault<Rectangle> for ChoiceValue {
    open spec fn choice_default_spec(&self) -> Result<Rectangle, ()> {
        match self {
            ChoiceValue::Rectangle(choice) => Ok(default_of(choice.1)),
            _ => Err(()),
        }
    }

    fn choice_default(&self) -> (r: Result<Rectangle, ()>) {
        if let ChoiceValue::Rectangle(choice) = self {
            choice.choice_default()
        } else {
            Err(())
        }
    }
}

impl ChoiceDefault<Fraction> for ChoiceValue {
    open spec fn choice_default_spec(&self) -> Result<Fraction, ()> {
        match self {
            ChoiceValue::Fraction(choice) => Ok(default_of(choice.1)),
            _ => Err(()),
        }
    }

    fn choice_default(&self) -> (r: Result<Fraction, ()>) {
        if let ChoiceValue::Fraction(choice) = self {
            choice.choice_default()
        } else {
            Err(())
        }
    }
}

impl ChoiceDefault<Fd> for ChoiceValue {
    open spec fn choice_default_spec(&self) -> Result<Fd, ()> {
        match self {
            ChoiceValue::Fd(choice) => Ok(default_of(choice.1)),
            _ => Err(()),
        }
    }

    fn choice_default(&self) -> (r: Result<Fd, ()>) {
        if let ChoiceValue::Fd(choice) = self {
            choice.choice_default()
        } else {
            Err(())
        }
    }
}

impl Fixate<i32> for Value {
    open spec fn fixate_spec(&self) -> Result<i32, ()> {
        match self {
            Value::Int(value) => Ok(*value),
            Value::Choice(choice) => choice.choice_default_spec(),
            _ => Err(()),
        }
    }

    fn fixate(&self) -> (r: Result<i32, ()>) {
        match self {
            Value::Int(value) => Ok(*value),
            Value::Choice(choice) => choice.choice_default(),
            _ => Err(()),
        }
    }
}

impl Fixate<Id> for Value {
    open spec fn fixate_spec(&self) -> Result<Id, ()> {
        match self {
            Value::Id(id) => Ok(*id),
            Value::Choice(choice) => choice.choice_default_spec(),
            _ => Err(()),
        }
    }

    fn fixate(&self) -> (r: Result<Id, ()>) {
        match self {
            Value::Id(id) => Ok(*id),
            Value::Choice(choice) => choice.choice_default(),
            _ => Err(()),
        }
    }
}

} // verus!
