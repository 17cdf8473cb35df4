use vstd::prelude::*;

verus! {

/// A simple selector made of a tag name, an id and classes.
#[derive(Debug)]
pub struct SimpleSelector {
    /// Tag name, such as "h1" or "p"; `None` matches any tag.
    pub tag_name: Option<String>,
    /// Id, such as "main".
    pub id: Option<String>,
    /// Classes, such as ["foo", "bar"].
    pub class: Vec<String>,
}

/// A CSS selector.
#[derive(Debug)]
pub enum Selector {
    /// A simple selector (tag name, id and classes together).
    Simple(SimpleSelector),
}

/// A whole style sheet: a list of rules.
#[derive(Debug)]
pub struct Stylesheet {
    /// The rules, in order.
    pub rules: Vec<Rule>,
}

/// One CSS rule: selectors and declarations.
#[derive(Debug)]
pub struct Rule {
    /// The selectors of this rule.
    pub selectors: Vec<Selector>,
    /// The declarations of this rule.
    pub declarations: Vec<Declaration>,
}

/// One CSS declaration: a property name and its value.
#[derive(Debug)]
pub struct Declaration {
    /// Property name, such as "color" or "font-size".
    pub name: String,
    /// Property value.
    pub value: Value,
}

/// A CSS value.
#[derive(Debug)]
pub enum Value {
    /// A keyword, such as "red" or "block".
    Keyword(String),
    /// A length with its unit, such as 16px; the number is kept as the bit pattern of the
    /// `f32` that it is (`f32::to_bits`), and nothing here computes with it.
    Length(u32, Unit),
    /// A color.
    Color(Color),
}

/// A CSS length unit.
#[derive(Debug, Clone, Copy, PartialEq, Eq, Structural)]
pub enum Unit {
    /// Pixels.
    Px,
}

/// An RGB color; each channel 0–255.
#[derive(Debug, Clone, Copy, PartialEq, Eq, Structural)]
pub struct Color {
    pub r: u8,
    pub g: u8,
    pub b: u8,
}

/// The mathematical value of a CSS value.
pub enum SpecValue {
    Keyword(Seq<char>),
    Length(u32, Unit),
    Color(Color),
}

impl View for Value {
    type V = SpecValue;

    open spec fn view(&self) -> SpecValue {
        match self {
            Value::Keyword(k) => SpecValue::Keyword(k@),
            Value::Length(v, u) => SpecValue::Length(*v, *u),
            Value::Color(c) => SpecValue::Color(*c),
        }
    }
}

impl Value {
    /// A copy of this value.
    pub fn copied(&self) -> (v: Value)
        ensures
            v@ == self@,
    {
        match self {
            Value::Keyword(k) => Value::Keyword(k.clone()),
            Value::Length(v, u) => Value::Length(*v, *u),
            Value::Color(c) => Value::Color(*c),
        }
    }
}

} // verus!
