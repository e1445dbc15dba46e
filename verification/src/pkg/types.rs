//! Names of resources.

use vstd::prelude::*;
use vstd::string::StringExecFns;

verus! {

/// NamespacedName comprises a resource name, with a mandatory namespace,
/// rendered as "<namespace>/<name>". The namespace is empty for a resource
/// that lives in no namespace. Neither part is checked for its format.
#[derive(Debug)]
pub struct NamespacedName {
    pub namespace: String,
    pub name: String,
}

impl NamespacedName {
    /// The canonical text of the name: the namespace, a slash, the name.
    pub open spec fn rendered(&self) -> Seq<char> {
        self.namespace@ + seq!['/'] + self.name@
    }

    /// Renders the name in its canonical form.
    pub fn to_string(&self) -> (text: String)
        ensures
            text@ == self.rendered(),
    {
        proof {
            reveal_strlit("/");
        }
        let mut text = self.namespace.clone();
        text.append("/");
        text.append(self.name.as_str());
        assert(text@ =~= self.rendered());
        text
    }
}

} // verus!
