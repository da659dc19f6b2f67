//! Identifiers: interned names and dense definition handles.

use vstd::prelude::*;

verus! {

/// An identifier for variables, definitions and constructors.
#[derive(Debug, Hash, PartialOrd, Ord)]
pub struct Name(pub String);

impl View for Name {
    type V = Seq<char>;

    open spec fn view(&self) -> Seq<char> {
        self.0@
    }
}

impl Name {
    pub fn new(value: &str) -> (r: Name)
        ensures
            r@ == value@,
    {
        Name(String::from_str(value))
    }

    pub fn as_str(&self) -> (r: &str)
        ensures
            r@ == self@,
    {
        self.0.as_str()
    }

    /// The text of the name.
    pub fn to_string(&self) -> (r: String)
        ensures
            r@ == self@,
    {
        self.0.clone()
    }

    /// Compares two names by their characters.
    pub fn same(&self, other: &Name) -> (r: bool)
        ensures
            r == (self@ == other@),
    {
        self.0 == other.0
    }
}

impl Clone for Name {
    fn clone(&self) -> (r: Name)
        ensures
            r == *self,
    {
        Name(self.0.clone())
    }
}

impl PartialEq for Name {
    fn eq(&self, other: &Name) -> (r: bool) {
        self.0 == other.0
    }
}

impl vstd::std_specs::cmp::PartialEqSpecImpl for Name {
    open spec fn obeys_eq_spec() -> bool {
        true
    }

    open spec fn eq_spec(&self, other: &Name) -> bool {
        self@ == other@
    }
}

impl Eq for Name {
}

/// The letter for a digit in base 26: 0 is `a`, 25 is `z`.
pub open spec fn letter(d: nat) -> char {
    (d + 97) as char
}

/// The name for a numeric index: its base-26 digits over `a`..`z`,
/// least significant first.
pub open spec fn index_name(n: nat) -> Seq<char>
    decreases n,
{
    if n < 26 {
        seq![letter(n)]
    } else {
        seq![letter(n % 26)] + index_name(n / 26)
    }
}

/// What remains to be spelled of an index once its leading digits are out.
pub open spec fn index_name_rest(n: nat) -> Seq<char> {
    if n == 0 {
        Seq::empty()
    } else {
        index_name(n)
    }
}

/// The decimal digit character for `d < 10`.
pub open spec fn digit(d: nat) -> char {
    (d + 48) as char
}

/// The decimal text of a number, most significant digit first.
pub open spec fn decimal_text(n: nat) -> Seq<char>
    decreases n,
{
    if n < 10 {
        seq![digit(n)]
    } else {
        decimal_text(n / 10).push(digit(n % 10))
    }
}

/// Relies on `String::push`: appends one character at the end.
#[verifier::external_body]
pub(crate) fn push_char(s: &mut String, c: char)
    ensures
        final(s)@ == old(s)@.push(c),
{
    s.push(c)
}

/// Appends the decimal text of `n` to `s`.
pub fn push_decimal(s: &mut String, n: u32)
    ensures
        final(s)@ == old(s)@ + decimal_text(n as nat),
    decreases n,
{
    if n >= 10 {
        push_decimal(s, n / 10);
    }
    let c = ((n % 10) as u8 + 48u8) as char;
    push_char(s, c);
    proof {
        assert(c == digit((n % 10) as nat));
        assert(final(s)@ =~= old(s)@ + decimal_text(n as nat));
    }
}

/// Synthesizes a display name for a numeric index.
pub fn var_id_to_name(var_id: u32) -> (r: Name)
    ensures
        r@ == index_name(var_id as nat),
{
    let mut name = String::new();
    let mut v: u32 = var_id;
    let c = ((v % 26) as u8 + 97u8) as char;
    push_char(&mut name, c);
    v = v / 26;
    assert(name@ + index_name_rest(v as nat) =~= index_name(var_id as nat));
    while v > 0
        invariant
            name@ + index_name_rest(v as nat) == index_name(var_id as nat),
        decreases v,
    {
        let c = ((v % 26) as u8 + 97u8) as char;
        let ghost before = name@;
        push_char(&mut name, c);
        proof {
            assert(c == letter((v % 26) as nat));
            assert(name@ + index_name_rest((v / 26) as nat) =~= before + index_name_rest(v as nat));
        }
        v = v / 26;
    }
    assert(name@ =~= index_name(var_id as nat));
    Name(name)
}

/// A dense handle of a definition, allocated by a registry.
#[derive(Debug, PartialEq, Eq, Structural, Clone, Copy, Hash, PartialOrd, Ord, Default)]
pub struct DefId(pub u32);

/// The execution substrate's number for a handle: it reserves zero.
pub open spec fn encoded(id: nat) -> nat {
    id + 1
}

/// The handle for a number of the execution substrate.
pub open spec fn decoded(val: nat) -> nat {
    (val - 1) as nat
}

impl DefId {
    pub fn to_internal(self) -> (r: u32)
        requires
            self.0 < u32::MAX,
        ensures
            r as nat == encoded(self.0 as nat),
    {
        self.0 + 1
    }

    pub fn from_internal(val: u32) -> (r: DefId)
        requires
            val > 0,
        ensures
            r.0 as nat == decoded(val as nat),
    {
        DefId(val - 1)
    }
}

/// Decoding the encoded form of a handle gives the handle back.
pub proof fn lemma_transcode_round_trip(id: nat)
    ensures
        decoded(encoded(id)) == id,
        encoded(id) > 0,
{
}

} // verus!
