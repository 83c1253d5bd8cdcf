//! Abstract domains of a static analysis: their types and lattice states.

use vstd::prelude::*;
use crate::text::{literal, push_decimal, push_signed_decimal, push_str, signed_decimal, decimal, string_of};

pub mod analysis;

verus! {

#[derive(Debug, Clone, Copy, PartialEq, Eq, Structural)]
pub enum DomainType {
    Top,
    Bottom,
    Integer,
    Pointer,
    Boolean,
    Float,
    Interval,
    Constant,
    Struct,
    Array,
    Group,
}

#[derive(Debug, Clone, Copy, PartialEq, Eq, Structural)]
pub enum DomainOperator {
    Join,
    Meet,
    Widen,
    Narrow,
    Assign,
    CompareEq,
    CompareNe,
    CompareLt,
    CompareLe,
    CompareGt,
    CompareGe,
    Add,
    Sub,
    Mul,
    Div,
    Mod,
    And,
    Or,
    Xor,
    Not,
    Shl,
    Shr,
    Alloc,
    Load,
    Store,
    Gep,
    Call,
    Phi,
    Select,
    Cmp,
}

/// Where a domain value stands in its lattice, and of which type it is.
#[derive(Debug, Clone, Copy, PartialEq, Eq, Structural)]
pub struct DomainState {
    pub is_top: bool,
    pub is_bottom: bool,
    pub domain_type: DomainType,
}

impl DomainState {
    /// The top state.
    pub fn new() -> (s: DomainState)
        ensures
            s == (DomainState { is_top: true, is_bottom: false, domain_type: DomainType::Top }),
    {
        DomainState { is_top: true, is_bottom: false, domain_type: DomainType::Top }
    }

    pub fn is_totally_unbounded(&self) -> (b: bool)
        ensures
            b == (self.is_top && !self.is_bottom),
    {
        self.is_top && !self.is_bottom
    }

    pub fn is_conflicting(&self) -> (b: bool)
        ensures
            b == self.is_bottom,
    {
        self.is_bottom
    }
}

impl Default for DomainState {
    fn default() -> (s: DomainState)
        ensures
            s == (DomainState { is_top: true, is_bottom: false, domain_type: DomainType::Top }),
    {
        DomainState::new()
    }
}

pub open spec fn top_text() -> Seq<char> {
    "⊤"@
}

pub open spec fn bottom_text() -> Seq<char> {
    "⊥"@
}

pub open spec fn bool_text(b: bool) -> Seq<char> {
    if b {
        "true"@
    } else {
        "false"@
    }
}

/// `[lo, hi]`.
pub open spec fn range_text(lo: i64, hi: i64) -> Seq<char> {
    seq!['['] + signed_decimal(lo as int) + seq![',', ' '] + signed_decimal(hi as int) + seq![']']
}

fn range_string(lo: i64, hi: i64) -> (s: String)
    ensures
        s@ == range_text(lo, hi),
{
    let mut v: Vec<char> = Vec::new();
    v.push('[');
    push_signed_decimal(&mut v, lo);
    v.push(',');
    v.push(' ');
    push_signed_decimal(&mut v, hi);
    v.push(']');
    assert(v@ =~= range_text(lo, hi));
    string_of(&v)
}

fn signed_string(n: i64) -> (s: String)
    ensures
        s@ == signed_decimal(n as int),
{
    let mut v: Vec<char> = Vec::new();
    push_signed_decimal(&mut v, n);
    assert(v@ =~= signed_decimal(n as int));
    string_of(&v)
}

fn bool_string(b: bool) -> (s: String)
    ensures
        s@ == bool_text(b),
{
    if b {
        literal("true")
    } else {
        literal("false")
    }
}

/// The domain of no information.
#[derive(Debug, Clone, Copy)]
pub struct TopDomain {
    is_top: bool,
    is_bottom: bool,
}

impl TopDomain {
    pub closed spec fn top(&self) -> bool {
        self.is_top
    }

    pub closed spec fn bottom(&self) -> bool {
        self.is_bottom
    }

    pub fn new() -> (d: TopDomain)
        ensures
            d.top() && !d.bottom(),
    {
        TopDomain { is_top: true, is_bottom: false }
    }

    /// `⊤` at the top, `⊥` at the bottom, else `top`.
    pub fn to_string(&self) -> (s: String)
        ensures
            s@ == if self.top() {
                top_text()
            } else if self.bottom() {
                bottom_text()
            } else {
                "top"@
            },
    {
        if self.is_top {
            literal("⊤")
        } else if self.is_bottom {
            literal("⊥")
        } else {
            literal("top")
        }
    }

    pub fn get_state(&self) -> (s: DomainState)
        ensures
            s == (DomainState { is_top: self.top(), is_bottom: self.bottom(), domain_type: DomainType::Top }),
    {
        DomainState { is_top: self.is_top, is_bottom: self.is_bottom, domain_type: DomainType::Top }
    }
}

impl Default for TopDomain {
    fn default() -> (d: TopDomain)
        ensures
            d.top() && !d.bottom(),
    {
        TopDomain::new()
    }
}

/// A boolean that may be known.
#[derive(Debug, Clone, Copy)]
pub struct BooleanDomain {
    value: Option<bool>,
    is_top: bool,
    is_bottom: bool,
}

impl BooleanDomain {
    pub closed spec fn value(&self) -> Option<bool> {
        self.value
    }

    pub closed spec fn top(&self) -> bool {
        self.is_top
    }

    pub closed spec fn bottom(&self) -> bool {
        self.is_bottom
    }

    pub fn new() -> (d: BooleanDomain)
        ensures
            d.value() is None && d.top() && !d.bottom(),
    {
        BooleanDomain { value: None, is_top: true, is_bottom: false }
    }

    pub fn with_value(value: bool) -> (d: BooleanDomain)
        ensures
            d.value() == Some(value) && !d.top() && !d.bottom(),
    {
        BooleanDomain { value: Some(value), is_top: false, is_bottom: false }
    }

    pub fn get_value(&self) -> (v: Option<bool>)
        ensures
            v == self.value(),
    {
        self.value
    }

    /// `⊤`, `⊥`, the known value, or `bool`.
    pub fn to_string(&self) -> (s: String)
        ensures
            s@ == if self.top() {
                top_text()
            } else if self.bottom() {
                bottom_text()
            } else {
                match self.value() {
                    Some(v) => bool_text(v),
                    None => "bool"@,
                }
            },
    {
        if self.is_top {
            literal("⊤")
        } else if self.is_bottom {
            literal("⊥")
        } else if let Some(v) = self.value {
            bool_string(v)
        } else {
            literal("bool")
        }
    }

    pub fn get_state(&self) -> (s: DomainState)
        ensures
            s == (DomainState { is_top: self.top(), is_bottom: self.bottom(), domain_type: DomainType::Boolean }),
    {
        DomainState { is_top: self.is_top, is_bottom: self.is_bottom, domain_type: DomainType::Boolean }
    }

    pub fn new_bottom() -> (d: BooleanDomain)
        ensures
            d.value() is None && !d.top() && d.bottom(),
    {
        BooleanDomain { value: None, is_top: false, is_bottom: true }
    }
}

impl Default for BooleanDomain {
    fn default() -> (d: BooleanDomain)
        ensures
            d.value() is None && d.top() && !d.bottom(),
    {
        BooleanDomain::new()
    }
}

/// An integer known to lie between two bounds.
#[derive(Debug, Clone, Copy)]
pub struct IntegerDomain {
    lower_bound: i64,
    upper_bound: i64,
    is_top: bool,
    is_bottom: bool,
}

impl IntegerDomain {
    pub closed spec fn lower(&self) -> i64 {
        self.lower_bound
    }

    pub closed spec fn upper(&self) -> i64 {
        self.upper_bound
    }

    pub closed spec fn top(&self) -> bool {
        self.is_top
    }

    pub closed spec fn bottom(&self) -> bool {
        self.is_bottom
    }

    pub open spec fn spec_is_singleton(&self) -> bool {
        !self.top() && !self.bottom() && self.lower() == self.upper()
    }

    /// All integers.
    pub fn new() -> (d: IntegerDomain)
        ensures
            d.lower() == i64::MIN && d.upper() == i64::MAX && d.top() && !d.bottom(),
    {
        IntegerDomain { lower_bound: i64::MIN, upper_bound: i64::MAX, is_top: true, is_bottom: false }
    }

    pub fn with_bounds(lo: i64, hi: i64) -> (d: IntegerDomain)
        ensures
            d.lower() == lo && d.upper() == hi && !d.top() && !d.bottom(),
    {
        IntegerDomain { lower_bound: lo, upper_bound: hi, is_top: false, is_bottom: false }
    }

    pub fn singleton(value: i64) -> (d: IntegerDomain)
        ensures
            d.lower() == value && d.upper() == value && !d.top() && !d.bottom(),
    {
        IntegerDomain { lower_bound: value, upper_bound: value, is_top: false, is_bottom: false }
    }

    pub fn get_lower_bound(&self) -> (v: i64)
        ensures
            v == self.lower(),
    {
        self.lower_bound
    }

    pub fn get_upper_bound(&self) -> (v: i64)
        ensures
            v == self.upper(),
    {
        self.upper_bound
    }

    #[verifier::when_used_as_spec(spec_is_singleton)]
    pub fn is_singleton(&self) -> (b: bool)
        ensures
            b == self.spec_is_singleton(),
    {
        !self.is_top && !self.is_bottom && self.lower_bound == self.upper_bound
    }

    /// `⊤`, `⊥`, the single value, or `[lo, hi]`.
    pub fn to_string(&self) -> (s: String)
        ensures
            s@ == if self.top() {
                top_text()
            } else if self.bottom() {
                bottom_text()
            } else if self.spec_is_singleton() {
                signed_decimal(self.lower() as int)
            } else {
                range_text(self.lower(), self.upper())
            },
    {
        if self.is_top {
            literal("⊤")
        } else if self.is_bottom {
            literal("⊥")
        } else if self.is_singleton() {
            signed_string(self.lower_bound)
        } else {
            range_string(self.lower_bound, self.upper_bound)
        }
    }

    pub fn get_state(&self) -> (s: DomainState)
        ensures
            s == (DomainState { is_top: self.top(), is_bottom: self.bottom(), domain_type: DomainType::Integer }),
    {
        DomainState { is_top: self.is_top, is_bottom: self.is_bottom, domain_type: DomainType::Integer }
    }

    pub fn new_bottom() -> (d: IntegerDomain)
        ensures
            d.lower() == 0 && d.upper() == 0 && !d.top() && d.bottom(),
    {
        IntegerDomain { lower_bound: 0, upper_bound: 0, is_top: false, is_bottom: true }
    }
}

impl Default for IntegerDomain {
    fn default() -> (d: IntegerDomain)
        ensures
            d.lower() == i64::MIN && d.upper() == i64::MAX && d.top() && !d.bottom(),
    {
        IntegerDomain::new()
    }
}

/// A pointer that may be null or point to a known address.
#[derive(Debug, Clone, Copy)]
pub struct PointerDomain {
    address: Option<u64>,
    is_top: bool,
    is_bottom: bool,
    is_null: bool,
}

impl PointerDomain {
    pub closed spec fn address(&self) -> Option<u64> {
        self.address
    }

    pub closed spec fn top(&self) -> bool {
        self.is_top
    }

    pub closed spec fn bottom(&self) -> bool {
        self.is_bottom
    }

    pub closed spec fn null_flag(&self) -> bool {
        self.is_null
    }

    pub fn new() -> (d: PointerDomain)
        ensures
            d.address() is None && d.top() && !d.bottom() && !d.null_flag(),
    {
        PointerDomain { address: None, is_top: true, is_bottom: false, is_null: false }
    }

    pub fn null() -> (d: PointerDomain)
        ensures
            d.address() is None && !d.top() && !d.bottom() && d.null_flag(),
    {
        PointerDomain { address: None, is_top: false, is_bottom: false, is_null: true }
    }

    pub fn with_address(addr: u64) -> (d: PointerDomain)
        ensures
            d.address() == Some(addr) && !d.top() && !d.bottom() && !d.null_flag(),
    {
        PointerDomain { address: Some(addr), is_top: false, is_bottom: false, is_null: false }
    }

    pub fn get_address(&self) -> (a: Option<u64>)
        ensures
            a == self.address(),
    {
        self.address
    }

    pub fn is_null(&self) -> (b: bool)
        ensures
            b == self.null_flag(),
    {
        self.is_null
    }

    /// `⊤`, `⊥`, `null`, `ptr(address)`, or `ptr`.
    pub fn to_string(&self) -> (s: String)
        ensures
            s@ == if self.top() {
                top_text()
            } else if self.bottom() {
                bottom_text()
            } else if self.null_flag() {
                "null"@
            } else {
                match self.address() {
                    Some(a) => "ptr("@ + decimal(a as nat) + seq![')'],
                    None => "ptr"@,
                }
            },
    {
        if self.is_top {
            literal("⊤")
        } else if self.is_bottom {
            literal("⊥")
        } else if self.is_null {
            literal("null")
        } else if let Some(addr) = self.address {
            let mut v: Vec<char> = Vec::new();
            push_str(&mut v, "ptr(");
            push_decimal(&mut v, addr);
            v.push(')');
            string_of(&v)
        } else {
            literal("ptr")
        }
    }

    pub fn get_state(&self) -> (s: DomainState)
        ensures
            s == (DomainState { is_top: self.top(), is_bottom: self.bottom(), domain_type: DomainType::Pointer }),
    {
        DomainState { is_top: self.is_top, is_bottom: self.is_bottom, domain_type: DomainType::Pointer }
    }

    pub fn new_bottom() -> (d: PointerDomain)
        ensures
            d.address() is None && !d.top() && d.bottom() && !d.null_flag(),
    {
        PointerDomain { address: None, is_top: false, is_bottom: true, is_null: false }
    }
}

impl Default for PointerDomain {
    fn default() -> (d: PointerDomain)
        ensures
            d.address() is None && d.top() && !d.bottom() && !d.null_flag(),
    {
        PointerDomain::new()
    }
}

/// An interval of integers.
#[derive(Debug, Clone, Copy)]
pub struct IntervalDomain {
    lower: i64,
    upper: i64,
    is_top: bool,
    is_bottom: bool,
}

impl IntervalDomain {
    pub closed spec fn lo(&self) -> i64 {
        self.lower
    }

    pub closed spec fn hi(&self) -> i64 {
        self.upper
    }

    pub closed spec fn top(&self) -> bool {
        self.is_top
    }

    pub closed spec fn bottom(&self) -> bool {
        self.is_bottom
    }

    pub open spec fn spec_is_point(&self) -> bool {
        !self.top() && !self.bottom() && self.lo() == self.hi()
    }

    pub open spec fn spec_contains(&self, value: i64) -> bool {
        self.top() || (self.lo() <= value && value <= self.hi())
    }

    pub fn new() -> (d: IntervalDomain)
        ensures
            d.lo() == i64::MIN && d.hi() == i64::MAX && d.top() && !d.bottom(),
    {
        IntervalDomain { lower: i64::MIN, upper: i64::MAX, is_top: true, is_bottom: false }
    }

    pub fn with_bounds(lo: i64, hi: i64) -> (d: IntervalDomain)
        ensures
            d.lo() == lo && d.hi() == hi && !d.top() && !d.bottom(),
    {
        IntervalDomain { lower: lo, upper: hi, is_top: false, is_bottom: false }
    }

    pub fn point(value: i64) -> (d: IntervalDomain)
        ensures
            d.lo() == value && d.hi() == value && !d.top() && !d.bottom(),
    {
        IntervalDomain { lower: value, upper: value, is_top: false, is_bottom: false }
    }

    pub fn get_lower(&self) -> (v: i64)
        ensures
            v == self.lo(),
    {
        self.lower
    }

    pub fn get_upper(&self) -> (v: i64)
        ensures
            v == self.hi(),
    {
        self.upper
    }

    #[verifier::when_used_as_spec(spec_is_point)]
    pub fn is_point(&self) -> (b: bool)
        ensures
            b == self.spec_is_point(),
    {
        !self.is_top && !self.is_bottom && self.lower == self.upper
    }

    /// Whether the interval holds `value`; the top interval holds every value.
    #[verifier::when_used_as_spec(spec_contains)]
    pub fn contains(&self, value: i64) -> (b: bool)
        ensures
            b == self.spec_contains(value),
    {
        self.is_top || (value >= self.lower && value <= self.upper)
    }

    /// `⊤`, `⊥`, the single value, or `[lo, hi]`.
    pub fn to_string(&self) -> (s: String)
        ensures
            s@ == if self.top() {
                top_text()
            } else if self.bottom() {
                bottom_text()
            } else if self.spec_is_point() {
                signed_decimal(self.lo() as int)
            } else {
                range_text(self.lo(), self.hi())
            },
    {
        if self.is_top {
            literal("⊤")
        } else if self.is_bottom {
            literal("⊥")
        } else if self.is_point() {
            signed_string(self.lower)
        } else {
            range_string(self.lower, self.upper)
        }
    }

    pub fn get_state(&self) -> (s: DomainState)
        ensures
            s == (DomainState { is_top: self.top(), is_bottom: self.bottom(), domain_type: DomainType::Interval }),
    {
        DomainState { is_top: self.is_top, is_bottom: self.is_bottom, domain_type: DomainType::Interval }
    }

    pub fn new_bottom() -> (d: IntervalDomain)
        ensures
            d.lo() == 0 && d.hi() == 0 && !d.top() && d.bottom(),
    {
        IntervalDomain { lower: 0, upper: 0, is_top: false, is_bottom: true }
    }
}

impl Default for IntervalDomain {
    fn default() -> (d: IntervalDomain)
        ensures
            d.lo() == i64::MIN && d.hi() == i64::MAX && d.top() && !d.bottom(),
    {
        IntervalDomain::new()
    }
}

/// The maker of domains of each type.
pub struct DomainFactory;

} // verus!
