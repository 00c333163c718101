//! Declarations generated for the foreign side of a call.

use vstd::prelude::*;
use vstd::string::*;

verus! {

/// One parameter of a generated C++ function: whether the host passes it
/// mutably, its name, and its C++ type (`void` when none was given).
pub struct CppParam {
    pub mutable: bool,
    pub name: String,
    pub ty: Option<String>,
}

/// The C++ parameter declaration for a parameter: a reference, `const`
/// unless the capture is mutable.
pub open spec fn cpp_param_text(mutable: bool, name: Seq<char>, ty: Option<Seq<char>>) -> Seq<
    char,
> {
    (if !mutable {
        "const "@
    } else {
        Seq::<char>::empty()
    }) + (match ty {
        Some(t) => t,
        None => "void"@,
    }) + "& "@ + name
}

impl CppParam {
    /// Renders the parameter as C++ parameter-declaration text.
    pub fn to_string(&self) -> (r: String)
        ensures
            r@ == cpp_param_text(
                self.mutable,
                self.name@,
                match self.ty {
                    Some(ref t) => Some(t@),
                    None => None,
                },
            ),
    {
        let mut s = String::new();
        if !self.mutable {
            s.append("const ");
        }
        match &self.ty {
            Some(t) => s.append(t.as_str()),
            None => s.append("void"),
        }
        s.append("& ");
        s.append(self.name.as_str());
        s
    }
}

} // verus!
