//! The packages whose releases are followed.

use crate::ansible::error::AnsibleError;
use vstd::prelude::*;
use vstd::string::StringExecFns;

verus! {

#[derive(Eq, PartialEq, Copy, Clone, Debug, Structural)]
pub enum Product {
    Ansible,
    AnsibleBase,
    AnsibleCore,
}

impl Product {
    /// The name of the package, as the package index knows it.
    pub open spec fn name(self) -> Seq<char> {
        match self {
            Product::Ansible => "ansible"@,
            Product::AnsibleBase => "ansible-base"@,
            Product::AnsibleCore => "ansible-core"@,
        }
    }

    /// What the error for an unknown name says before the name.
    pub open spec fn unknown_prefix() -> Seq<char> {
        "Unknown product: "@
    }

    /// The product as text: its name.
    pub fn to_string(&self) -> (text: String)
        ensures
            text@ == self.name(),
    {
        match self {
            Product::Ansible => String::from_str("ansible"),
            Product::AnsibleBase => String::from_str("ansible-base"),
            Product::AnsibleCore => String::from_str("ansible-core"),
        }
    }

    /// The product of a name. Any other string is an error that says so.
    pub fn from_str(s: &str) -> (r: Result<Product, AnsibleError>)
        ensures
            match r {
                Ok(product) => s@ == product.name(),
                Err(e) => s@ != Product::Ansible.name() && s@ != Product::AnsibleBase.name() && s@
                    != Product::AnsibleCore.name() && match e {
                    AnsibleError::ParseError(text) => text@ == Product::unknown_prefix() + s@,
                    _ => false,
                },
            },
    {
        let name = s.to_owned();
        if name == Product::Ansible.to_string() {
            Ok(Product::Ansible)
        } else if name == Product::AnsibleBase.to_string() {
            Ok(Product::AnsibleBase)
        } else if name == Product::AnsibleCore.to_string() {
            Ok(Product::AnsibleCore)
        } else {
            let mut text = String::from_str("Unknown product: ");
            text.append(s);
            Err(AnsibleError::parse_error(text))
        }
    }
}

/// No two products have the same name: a name stands for one product.
pub proof fn lemma_names_differ(a: Product, b: Product)
    ensures
        a.name() == b.name() ==> a == b,
{
    reveal_strlit("ansible");
    reveal_strlit("ansible-base");
    reveal_strlit("ansible-core");
    assert("ansible"@.len() == 7);
    assert("ansible-base"@[8] == 'b');
    assert("ansible-core"@[8] == 'c');
}

} // verus!
