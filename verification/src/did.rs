use vstd::prelude::*;
use vstd::string::*;
use crate::error::CommonError;

verus! {

/// The characters `did:` that open every decentralised identifier.
pub open spec fn did_prefix() -> Seq<char> {
    seq!['d', 'i', 'd', ':']
}

/// A well-formed identifier reads `did:<method>:<id>`, where the method is a
/// non-empty run of characters without `:` and the id is non-empty.
pub open spec fn is_valid_did(s: Seq<char>) -> bool {
    &&& s.len() >= 4
    &&& s.subrange(0, 4) == did_prefix()
    &&& exists|k: int| #[trigger] method_end(s, k)
}

/// `k` is the index of the `:` that closes the method part of `s`.
pub open spec fn method_end(s: Seq<char>, k: int) -> bool {
    &&& 4 < k < s.len() - 1
    &&& s[k] == ':'
    &&& forall|j: int| 4 <= j < k ==> s[j] != ':'
}

/// A decentralised identifier, kept as its full textual form.
#[derive(Debug, Hash)]
pub struct Did {
    text: String,
}

impl Did {
    /// Every identifier is well formed.
    #[verifier::type_invariant]
    pub open spec fn well_formed(self) -> bool {
        is_valid_did(self@)
    }
}

impl View for Did {
    type V = Seq<char>;

    closed spec fn view(&self) -> Seq<char> {
        self.text@
    }
}

impl Did {
    /// Parse an identifier of the form `did:<method>:<id>`.
    pub fn from_str(s: &str) -> (res: Result<Did, CommonError>)
        ensures
            res is Ok <==> is_valid_did(s@),
            res matches Ok(d) ==> d@ == s@,
            res matches Err(e) ==> e is InvalidInputError,
    {
        let n = s.unicode_len();
        if n < 4 {
            return Err(CommonError::InvalidInputError(String::from_str("invalid DID")));
        }
        let c0 = s.get_char(0);
        let c1 = s.get_char(1);
        let c2 = s.get_char(2);
        let c3 = s.get_char(3);
        if !(c0 == 'd' && c1 == 'i' && c2 == 'd' && c3 == ':') {
            proof {
                if s@.subrange(0, 4) == did_prefix() {
                    assert(s@[0] == s@.subrange(0, 4)[0]);
                    assert(s@[1] == s@.subrange(0, 4)[1]);
                    assert(s@[2] == s@.subrange(0, 4)[2]);
                    assert(s@[3] == s@.subrange(0, 4)[3]);
                }
            }
            return Err(CommonError::InvalidInputError(String::from_str("invalid DID")));
        }
        assert(s@.subrange(0, 4) =~= did_prefix());
        let mut k: usize = 4;
        while k < n
            invariant
                4 <= k <= n,
                n == s@.len(),
                forall|j: int| 4 <= j < k ==> s@[j] != ':',
            ensures
                4 <= k <= n,
                forall|j: int| 4 <= j < k ==> s@[j] != ':',
                k < n ==> s@[k as int] == ':',
            decreases n - k,
        {
            if s.get_char(k) == ':' {
                break;
            }
            k = k + 1;
        }
        if k < n && k > 4 && k + 1 < n {
            assert(method_end(s@, k as int));
            Ok(Did { text: String::from_str(s) })
        } else {
            proof {
                assert forall|m: int| !#[trigger] method_end(s@, m) by {
                    if method_end(s@, m) {
                        if m < k {
                        } else if m > k {
                            assert(s@[k as int] == ':');
                        }
                    }
                }
            }
            Err(CommonError::InvalidInputError(String::from_str("invalid DID")))
        }
    }

    /// The full textual form of the identifier.
    pub fn as_str(&self) -> (r: &str)
        ensures
            r@ == self@,
    {
        self.text.as_str()
    }

    /// A copy of this identifier.
    pub fn duplicate(&self) -> (r: Did)
        ensures
            r@ == self@,
            r == *self,
    {
        proof {
            use_type_invariant(self);
        }
        Did { text: self.text.clone() }
    }

    /// Whether both identifiers have the same text.
    pub fn same_as(&self, other: &Did) -> (r: bool)
        ensures
            r == (self@ == other@),
    {
        self.text == other.text
    }
}

impl Clone for Did {
    fn clone(&self) -> (r: Self)
        ensures
            r@ == self@,
    {
        self.duplicate()
    }
}

impl PartialEq for Did {
    fn eq(&self, other: &Self) -> (r: bool) {
        self.text == other.text
    }
}

impl vstd::std_specs::cmp::PartialEqSpecImpl for Did {
    open spec fn obeys_eq_spec() -> bool {
        true
    }

    open spec fn eq_spec(&self, other: &Self) -> bool {
        self@ == other@
    }
}

impl Eq for Did {
}

} // verus!
