//! The schema model: field declarations and their declared types.

use vstd::prelude::*;

verus! {

use vstd::string::StrSliceExecFns;
use vstd::string::StringExecFns;
use vstd::utf8::is_ascii_chars;

/// Mathematical shape of a declared field type.
pub ghost enum TypeRefV {
    UnsignedInteger64,
    ByteString,
    Boolean,
    FieldElement,
    ArrayOf(Box<TypeRefV>),
    Named(Seq<char>),
}

/// Declared type of one record field.  `Named` denotes a nested record type
/// with its own generated deserializer; `ArrayOf` an array of elements.
#[derive(Debug)]
pub enum TypeRef {
    UnsignedInteger64,
    ByteString,
    Boolean,
    FieldElement,
    ArrayOf(Box<TypeRef>),
    Named(String),
}

pub open spec fn type_ref_view(t: TypeRef) -> TypeRefV
    decreases t,
{
    match t {
        TypeRef::UnsignedInteger64 => TypeRefV::UnsignedInteger64,
        TypeRef::ByteString => TypeRefV::ByteString,
        TypeRef::Boolean => TypeRefV::Boolean,
        TypeRef::FieldElement => TypeRefV::FieldElement,
        TypeRef::ArrayOf(inner) => TypeRefV::ArrayOf(Box::new(type_ref_view(*inner))),
        TypeRef::Named(name) => TypeRefV::Named(name@),
    }
}

impl View for TypeRef {
    type V = TypeRefV;

    open spec fn view(&self) -> TypeRefV {
        type_ref_view(*self)
    }
}

/// The source text that denotes a declared type.
pub open spec fn render_type_spec(t: TypeRefV) -> Seq<char>
    decreases t,
{
    match t {
        TypeRefV::UnsignedInteger64 => "u64"@,
        TypeRefV::ByteString => "ByteArray"@,
        TypeRefV::Boolean => "bool"@,
        TypeRefV::FieldElement => "felt252"@,
        TypeRefV::ArrayOf(inner) => "Array<"@ + render_type_spec(*inner) + ">"@,
        TypeRefV::Named(name) => name,
    }
}

/// Type text of the shape `Array<...>`.
pub open spec fn is_array_text(s: Seq<char>) -> bool {
    s.len() >= 7 && s.subrange(0, 6) == "Array<"@ && s[s.len() - 1] == '>'
}

/// The element type text inside `Array<...>`.
pub open spec fn array_inner_text(s: Seq<char>) -> Seq<char> {
    s.subrange(6, s.len() - 1)
}

/// The declared type denoted by a piece of type text.
pub open spec fn classify_spec(s: Seq<char>) -> TypeRefV
    decreases s.len(),
{
    if s == "u64"@ {
        TypeRefV::UnsignedInteger64
    } else if s == "ByteArray"@ {
        TypeRefV::ByteString
    } else if s == "bool"@ {
        TypeRefV::Boolean
    } else if s == "felt252"@ {
        TypeRefV::FieldElement
    } else if is_array_text(s) {
        TypeRefV::ArrayOf(Box::new(classify_spec(array_inner_text(s))))
    } else {
        TypeRefV::Named(s)
    }
}

/// Equality of two string slices, decided character by character.
pub fn str_eq(a: &str, b: &str) -> (r: bool)
    ensures
        r == (a@ == b@),
{
    let a_len = a.unicode_len();
    let b_len = b.unicode_len();
    if a_len != b_len {
        return false;
    }
    let mut i: usize = 0;
    while i < a_len
        invariant
            i <= a_len,
            a_len == a@.len(),
            a_len == b@.len(),
            forall|j: int| 0 <= j < i ==> a@[j] == b@[j],
        decreases a_len - i,
    {
        if a.get_char(i) != b.get_char(i) {
            return false;
        }
        i += 1;
    }
    proof {
        assert(a@ =~= b@);
    }
    true
}

impl TypeRef {
    /// Classify a piece of type text as a declared type.
    pub fn from_text(s: &str) -> (r: TypeRef)
        ensures
            r@ == classify_spec(s@),
        decreases s@.len(),
    {
        if str_eq(s, "u64") {
            return TypeRef::UnsignedInteger64;
        }
        if str_eq(s, "ByteArray") {
            return TypeRef::ByteString;
        }
        if str_eq(s, "bool") {
            return TypeRef::Boolean;
        }
        if str_eq(s, "felt252") {
            return TypeRef::FieldElement;
        }
        let n = s.unicode_len();
        let is_array = n >= 7 && s.get_char(0) == 'A' && s.get_char(1) == 'r' && s.get_char(2)
            == 'r' && s.get_char(3) == 'a' && s.get_char(4) == 'y' && s.get_char(5) == '<'
            && s.get_char(n - 1) == '>';
        proof {
            reveal_strlit("Array<");
            if is_array {
                assert(s@.subrange(0, 6) =~= "Array<"@);
            } else if is_array_text(s@) {
                assert(s@.subrange(0, 6)[0] == s@[0]);
                assert(s@.subrange(0, 6)[1] == s@[1]);
                assert(s@.subrange(0, 6)[2] == s@[2]);
                assert(s@.subrange(0, 6)[3] == s@[3]);
                assert(s@.subrange(0, 6)[4] == s@[4]);
                assert(s@.subrange(0, 6)[5] == s@[5]);
                assert(false);
            }
        }
        if is_array {
            let inner = s.substring_char(6, n - 1);
            let element = TypeRef::from_text(inner);
            proof {
                assert(inner@ =~= array_inner_text(s@));
            }
            TypeRef::ArrayOf(Box::new(element))
        } else {
            TypeRef::Named(String::from_str(s))
        }
    }

    /// Render a declared type back to its source text.
    pub fn render(&self) -> (r: String)
        ensures
            r@ == render_type_spec(self@),
        decreases *self,
    {
        match self {
            TypeRef::UnsignedInteger64 => String::from_str("u64"),
            TypeRef::ByteString => String::from_str("ByteArray"),
            TypeRef::Boolean => String::from_str("bool"),
            TypeRef::FieldElement => String::from_str("felt252"),
            TypeRef::ArrayOf(inner) => {
                let mut out = String::from_str("Array<");
                let element = inner.render();
                out.append(element.as_str());
                out.append(">");
                out
            },
            TypeRef::Named(name) => name.clone(),
        }
    }
}

/// Classification is faithful to the source: rendering the declared type
/// read from a piece of type text yields that text again, unchanged.
pub proof fn lemma_render_classify_round_trip(s: Seq<char>)
    ensures
        render_type_spec(classify_spec(s)) == s,
    decreases s.len(),
{
    if s == "u64"@ || s == "ByteArray"@ || s == "bool"@ || s == "felt252"@ {
    } else if is_array_text(s) {
        lemma_render_classify_round_trip(array_inner_text(s));
        reveal_strlit("Array<");
        reveal_strlit(">");
        assert(s =~= "Array<"@ + array_inner_text(s) + ">"@);
    }
}

/// Mathematical view of one field declaration.
pub ghost struct FieldV {
    pub name: Seq<char>,
    pub ty: TypeRefV,
}

/// One record field: a name and a declared type.
#[derive(Debug)]
pub struct Field {
    pub name: String,
    pub ty: TypeRef,
}

impl View for Field {
    type V = FieldV;

    open spec fn view(&self) -> FieldV {
        FieldV { name: self.name@, ty: self.ty@ }
    }
}

/// An ordered record schema; order is declaration order.
#[derive(Debug)]
pub struct Schema {
    pub fields: Vec<Field>,
}

impl View for Schema {
    type V = Seq<FieldV>;

    open spec fn view(&self) -> Seq<FieldV> {
        self.fields@.map_values(|f: Field| f@)
    }
}

/// The bytes of an ASCII character sequence.
pub open spec fn ascii_bytes(s: Seq<char>) -> Seq<u8> {
    Seq::new(s.len(), |i: int| s[i] as u8)
}

pub open spec fn is_ident_start_byte(b: u8) -> bool {
    (97 <= b <= 122) || (65 <= b <= 90) || b == 95
}

pub open spec fn is_ident_byte(b: u8) -> bool {
    is_ident_start_byte(b) || (48 <= b <= 57)
}

/// A field name that can be interpolated verbatim into generated source:
/// a nonempty ASCII identifier.
pub open spec fn valid_field_name(s: Seq<char>) -> bool {
    &&& is_ascii_chars(s)
    &&& s.len() > 0
    &&& is_ident_start_byte(ascii_bytes(s)[0])
    &&& forall|i: int| 1 <= i < s.len() ==> is_ident_byte(#[trigger] ascii_bytes(s)[i])
}

/// Decide whether a field name is a nonempty ASCII identifier.
pub fn check_field_name(name: &str) -> (r: bool)
    ensures
        r == valid_field_name(name@),
{
    broadcast use vstd::string::is_ascii_spec_bytes;

    if !name.is_ascii() {
        return false;
    }
    let b = name.as_bytes();
    proof {
        assert(b@ =~= ascii_bytes(name@));
    }
    if b.len() == 0 {
        return false;
    }
    let b0 = b[0];
    if !((97 <= b0 && b0 <= 122) || (65 <= b0 && b0 <= 90) || b0 == 95) {
        return false;
    }
    let mut i: usize = 1;
    while i < b.len()
        invariant
            1 <= i <= b@.len(),
            b@ == ascii_bytes(name@),
            forall|j: int| 1 <= j < i ==> is_ident_byte(#[trigger] b@[j]),
        decreases b@.len() - i,
    {
        let bi = b[i];
        if !((97 <= bi && bi <= 122) || (65 <= bi && bi <= 90) || bi == 95 || (48 <= bi && bi
            <= 57)) {
            return false;
        }
        i += 1;
    }
    true
}

} // verus!
