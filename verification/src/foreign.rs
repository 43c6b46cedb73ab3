//! Explicit, host-owned registry of native functions.
//!
//! The registry stores the identity of each declaration, its exact signature, and
//! the opaque address of its wrapper. It loads nothing, and there is none that
//! contexts share.

use vstd::prelude::*;
use vstd::utf8::*;

use crate::context::ExecutionContext;
use crate::memory::same_bytes;
use crate::text::{push_signed_decimal, signed_decimal};

verus! {

/// The type of a value that crosses to native code.
#[derive(Clone, Copy, Debug, PartialEq, Eq, PartialOrd, Ord, Hash, Structural)]
pub enum ForeignType {
    Void,
    Bool,
    SByte,
    Byte,
    Short,
    UShort,
    Char,
    Int,
    UInt,
    Long,
    ULong,
    Float,
    Double,
}

/// The signature of one wrapper. No parameter is `Void`.
#[derive(Debug)]
pub struct ForeignSignature {
    parameters: Vec<ForeignType>,
    result: ForeignType,
}

/// Why a registration or a lookup was refused.
#[derive(Debug)]
pub struct ForeignRegistryError {
    message: String,
}

impl ForeignRegistryError {
    /// What is wrong, in words.
    pub closed spec fn text(&self) -> Seq<char> {
        self.message@
    }

    fn new(message: String) -> (error: Self)
        ensures
            error.text() == message@,
    {
        ForeignRegistryError { message }
    }

    /// What is wrong, in words.
    pub fn message(&self) -> (message: &str)
        ensures
            message@ == self.text(),
    {
        self.message.as_str()
    }
}

impl ForeignSignature {
    pub closed spec fn parameter_types(&self) -> Seq<ForeignType> {
        self.parameters@
    }

    pub closed spec fn result_type(&self) -> ForeignType {
        self.result
    }

    #[verifier::type_invariant]
    spec fn takes_values(self) -> bool {
        !self.parameters@.contains(ForeignType::Void)
    }

    /// Builds a signature. `Void` is valid only as the result.
    pub fn new(parameters: Vec<ForeignType>, result: ForeignType) -> (signature: Result<
        Self,
        ForeignRegistryError,
    >)
        ensures
            match signature {
                Ok(made) => {
                    &&& !parameters@.contains(ForeignType::Void)
                    &&& made.parameter_types() == parameters@
                    &&& made.result_type() == result
                },
                Err(error) => {
                    &&& parameters@.contains(ForeignType::Void)
                    &&& error.text() == "foreign parameters cannot have type `void`"@
                },
            },
    {
        let mut i: usize = 0;
        while i < parameters.len()
            invariant
                i <= parameters@.len(),
                forall|k: int| 0 <= k < i ==> #[trigger] parameters@[k] != ForeignType::Void,
            decreases parameters@.len() - i,
        {
            if parameters[i] == ForeignType::Void {
                assert(parameters@.contains(ForeignType::Void));
                return Err(
                    ForeignRegistryError::new(
                        "foreign parameters cannot have type `void`".to_owned(),
                    ),
                );
            }
            i = i + 1;
        }
        Ok(ForeignSignature { parameters, result })
    }

    /// The types of the parameters, none of which is `Void`.
    pub fn parameters(&self) -> (parameters: &[ForeignType])
        ensures
            parameters@ == self.parameter_types(),
            !parameters@.contains(ForeignType::Void),
    {
        proof {
            use_type_invariant(self);
        }
        self.parameters.as_slice()
    }

    /// The type of the result.
    pub fn result(&self) -> (result: ForeignType)
        ensures
            result == self.result_type(),
    {
        self.result
    }

    /// Whether two signatures are the same.
    fn same(&self, other: &Self) -> (equal: bool)
        ensures
            equal == (self.parameter_types() == other.parameter_types() && self.result_type()
                == other.result_type()),
    {
        if self.result != other.result || self.parameters.len() != other.parameters.len() {
            return false;
        }
        let mut i: usize = 0;
        while i < self.parameters.len()
            invariant
                i <= self.parameters@.len() == other.parameters@.len(),
                forall|k: int|
                    0 <= k < i ==> #[trigger] self.parameters@[k] == other.parameters@[k],
            decreases self.parameters@.len() - i,
        {
            if self.parameters[i] != other.parameters[i] {
                return false;
            }
            i = i + 1;
        }
        assert(self.parameters@ =~= other.parameters@);
        true
    }
}

impl Clone for ForeignSignature {
    fn clone(&self) -> (copy: Self)
        ensures
            copy.parameter_types() == self.parameter_types(),
            copy.result_type() == self.result_type(),
    {
        proof {
            use_type_invariant(self);
        }
        let mut parameters: Vec<ForeignType> = Vec::new();
        let mut i: usize = 0;
        while i < self.parameters.len()
            invariant
                i <= self.parameters@.len(),
                parameters@ == self.parameters@.take(i as int),
            decreases self.parameters@.len() - i,
        {
            parameters.push(self.parameters[i]);
            assert(parameters@ =~= self.parameters@.take(i + 1));
            i = i + 1;
        }
        assert(parameters@ =~= self.parameters@);
        ForeignSignature { parameters, result: self.result }
    }
}

/// What a wrapper is registered under.
#[verifier::ext_equal]
pub struct ForeignKey {
    pub name: Seq<char>,
    pub parameters: Seq<ForeignType>,
    pub result: ForeignType,
}

/// What a wrapper of this name and signature is registered under.
pub open spec fn foreign_key(name: Seq<char>, signature: ForeignSignature) -> ForeignKey {
    ForeignKey {
        name,
        parameters: signature.parameter_types(),
        result: signature.result_type(),
    }
}

/// Whether a wrapper of this name is registered under some signature.
pub open spec fn has_name(bindings: Map<ForeignKey, usize>, name: Seq<char>) -> bool {
    exists|key: ForeignKey| #[trigger] bindings.contains_key(key) && key.name == name
}

#[derive(Debug)]
struct ForeignBinding {
    name: String,
    signature: ForeignSignature,
    address: usize,
}

/// Whether a wrapper at this address can be registered under a key.
pub open spec fn is_acceptable(key: ForeignKey, address: usize) -> bool {
    address != 0 && key.name.len() > 0
}

/// The bindings after a wrapper was to be registered: a key that has one keeps it.
pub open spec fn registered(
    bindings: Map<ForeignKey, usize>,
    key: ForeignKey,
    address: usize,
) -> Map<ForeignKey, usize> {
    if is_acceptable(key, address) && !bindings.contains_key(key) {
        bindings.insert(key, address)
    } else {
        bindings
    }
}

spec fn key_of(binding: ForeignBinding) -> ForeignKey {
    foreign_key(binding.name@, binding.signature)
}

spec fn is_bound_at(bindings: Seq<ForeignBinding>, key: ForeignKey, i: int) -> bool {
    0 <= i < bindings.len() && key_of(bindings[i]) == key
}

spec fn distinct(bindings: Seq<ForeignBinding>) -> bool {
    forall|i: int, j: int|
        #![trigger bindings[i], bindings[j]]
        0 <= i < j < bindings.len() ==> key_of(bindings[i]) != key_of(bindings[j])
}

spec fn bound(bindings: Seq<ForeignBinding>) -> Map<ForeignKey, usize> {
    Map::new(
        |key: ForeignKey| exists|i: int| #[trigger] is_bound_at(bindings, key, i),
        |key: ForeignKey| bindings[choose|i: int| #[trigger] is_bound_at(bindings, key, i)].address,
    )
}

proof fn lemma_bound_at(bindings: Seq<ForeignBinding>, i: int)
    requires
        distinct(bindings),
        0 <= i < bindings.len(),
    ensures
        bound(bindings).contains_key(key_of(bindings[i])),
        bound(bindings)[key_of(bindings[i])] == bindings[i].address,
{
    let key = key_of(bindings[i]);
    assert(is_bound_at(bindings, key, i));
    let k = choose|k: int| #[trigger] is_bound_at(bindings, key, k);
    assert(is_bound_at(bindings, key, k));
    if i < k {
        assert(key_of(bindings[i]) != key_of(bindings[k]));
    }
    if k < i {
        assert(key_of(bindings[k]) != key_of(bindings[i]));
    }
}

/// The wrappers that a host offers.
#[derive(Debug)]
pub struct ForeignRegistry {
    bindings: Vec<ForeignBinding>,
}

impl View for ForeignRegistry {
    type V = Map<ForeignKey, usize>;

    closed spec fn view(&self) -> Map<ForeignKey, usize> {
        bound(self.bindings@)
    }
}

/// The report about a name, in backquotes between two texts.
pub open spec fn named_report(before: Seq<char>, name: Seq<char>, after: Seq<char>) -> Seq<char> {
    before + name + after
}

fn named_error(before: &str, name: &str, after: &str) -> (error: ForeignRegistryError)
    ensures
        error.text() == named_report(before@, name@, after@),
{
    let mut message: String = before.to_owned();
    message.append(name);
    message.append(after);
    ForeignRegistryError::new(message)
}

impl ForeignRegistry {
    #[verifier::type_invariant]
    spec fn keys_are_distinct(self) -> bool {
        distinct(self.bindings@)
    }

    /// A registry without wrappers.
    pub fn new() -> (registry: Self)
        ensures
            registry@ == Map::<ForeignKey, usize>::empty(),
    {
        let registry = ForeignRegistry { bindings: Vec::new() };
        assert(registry@ =~= Map::<ForeignKey, usize>::empty());
        registry
    }

    /// Finds the wrapper of a name and signature. The second result says whether
    /// the name has any wrapper.
    fn find(&self, name: &str, signature: &ForeignSignature) -> (result: (Option<usize>, bool))
        ensures
            match result.0 {
                Some(address) => self@.contains_key(foreign_key(name@, *signature))
                    && self@[foreign_key(name@, *signature)] == address,
                None => !self@.contains_key(foreign_key(name@, *signature)),
            },
            result.0 is None ==> result.1 == has_name(self@, name@),
    {
        proof {
            use_type_invariant(self);
        }
        let ghost bindings = self.bindings@;
        let ghost key = foreign_key(name@, *signature);
        let mut named: bool = false;
        let mut i: usize = 0;
        while i < self.bindings.len()
            invariant
                bindings == self.bindings@,
                distinct(bindings),
                key == foreign_key(name@, *signature),
                i <= bindings.len(),
                named == exists|k: int| 0 <= k < i && (#[trigger] bindings[k]).name@ == name@,
                forall|k: int| 0 <= k < i ==> !#[trigger] is_bound_at(bindings, key, k),
            decreases bindings.len() - i,
        {
            let same: bool = same_bytes(self.bindings[i].name.as_str().as_bytes(), name.as_bytes());
            proof {
                encode_utf8_decode_utf8(bindings[i as int].name@);
                encode_utf8_decode_utf8(name@);
            }
            if same {
                named = true;
                if self.bindings[i].signature.same(signature) {
                    proof {
                        assert(key_of(bindings[i as int]) =~= key);
                        lemma_bound_at(bindings, i as int);
                    }
                    return (Some(self.bindings[i].address), true);
                }
            }
            i = i + 1;
        }
        proof {
            if named {
                let k = choose|k: int| 0 <= k < i && (#[trigger] bindings[k]).name@ == name@;
                lemma_bound_at(bindings, k);
                assert(self@.contains_key(key_of(bindings[k])));
            }
            if has_name(self@, name@) {
                let other = choose|other: ForeignKey| #[trigger]
                    self@.contains_key(other) && other.name == name@;
                let k = choose|k: int| #[trigger] is_bound_at(bindings, other, k);
                assert(is_bound_at(bindings, other, k));
                assert(bindings[k].name@ == name@);
            }
        }
        (None, named)
    }

    /// Registers one long-lived wrapper under the identity of its declaration and
    /// its exact signature. What is registered never changes.
    pub fn register(&mut self, name: &str, signature: ForeignSignature, address: usize) -> (result:
        Result<(), ForeignRegistryError>)
        ensures
            final(self)@ == registered(old(self)@, foreign_key(name@, signature), address),
            match result {
                Ok(_) => {
                    &&& address != 0
                    &&& name@.len() > 0
                    &&& !old(self)@.contains_key(foreign_key(name@, signature))
                    &&& final(self)@ == old(self)@.insert(foreign_key(name@, signature), address)
                },
                Err(error) => {
                    &&& final(self)@ == old(self)@
                    &&& if address == 0 {
                        error.text() == "foreign wrapper address cannot be null"@
                    } else if name@.len() == 0 {
                        error.text() == "foreign declaration identity cannot be empty"@
                    } else {
                        &&& old(self)@.contains_key(foreign_key(name@, signature))
                        &&& error.text() == named_report(
                            "duplicate foreign binding for `"@,
                            name@,
                            "` with the same signature"@,
                        )
                    }
                },
            },
    {
        if address == 0 {
            return Err(
                ForeignRegistryError::new("foreign wrapper address cannot be null".to_owned()),
            );
        }
        let size: usize = name.as_bytes().len();
        proof {
            encode_utf8_decode_utf8(name@);
            if size == 0 {
                assert(encode_utf8(name@) =~= Seq::empty());
                assert(encode_utf8(Seq::<char>::empty()) =~= Seq::empty());
                encode_utf8_decode_utf8(Seq::<char>::empty());
            }
            if name@.len() == 0 {
                assert(name@ =~= Seq::empty());
                assert(encode_utf8(name@) =~= Seq::empty());
            }
        }
        if size == 0 {
            return Err(
                ForeignRegistryError::new(
                    "foreign declaration identity cannot be empty".to_owned(),
                ),
            );
        }
        let (found, _named): (Option<usize>, bool) = self.find(name, &signature);
        if found.is_some() {
            return Err(
                named_error("duplicate foreign binding for `", name, "` with the same signature"),
            );
        }
        proof {
            use_type_invariant(&*self);
        }
        let ghost before = self.bindings@;
        let ghost key = foreign_key(name@, signature);
        let mut bindings: Vec<ForeignBinding> = Vec::new();
        std::mem::swap(&mut bindings, &mut self.bindings);
        bindings.push(ForeignBinding { name: name.to_owned(), signature, address });
        proof {
            let after = bindings@;
            let last = before.len() as int;
            assert(key_of(after[last]) == key);
            assert forall|i: int, j: int|
                #![trigger after[i], after[j]]
                0 <= i < j < after.len() implies key_of(after[i]) != key_of(after[j]) by {
                if j == last {
                    if key_of(after[i]) == key {
                        assert(is_bound_at(before, key, i));
                    }
                }
            }
            lemma_bound_at(after, last);
            assert forall|other: ForeignKey|
                #![trigger bound(after).dom().contains(other)]
                #![trigger bound(after)[other]]
                other != key implies bound(after).contains_key(other) == bound(
                before,
            ).contains_key(other) && (bound(before).contains_key(other) ==> bound(after)[other]
                == bound(before)[other]) by {
                if bound(before).contains_key(other) {
                    let k = choose|k: int| #[trigger] is_bound_at(before, other, k);
                    assert(is_bound_at(after, other, k));
                    lemma_bound_at(before, k);
                    lemma_bound_at(after, k);
                }
                if bound(after).contains_key(other) {
                    let k = choose|k: int| #[trigger] is_bound_at(after, other, k);
                    assert(is_bound_at(before, other, k));
                }
            }
            assert(bound(after) =~= bound(before).insert(key, address));
        }
        self.bindings = bindings;
        Ok(())
    }

    /// Where the wrapper of a name and exact signature is.
    pub fn resolve_address(&self, name: &str, signature: &ForeignSignature) -> (result: Result<
        usize,
        ForeignRegistryError,
    >)
        ensures
            match result {
                Ok(address) => {
                    &&& self@.contains_key(foreign_key(name@, *signature))
                    &&& self@[foreign_key(name@, *signature)] == address
                },
                Err(error) => {
                    &&& !self@.contains_key(foreign_key(name@, *signature))
                    &&& error.text() == if has_name(self@, name@) {
                        named_report("foreign binding signature mismatch for `"@, name@, "`"@)
                    } else {
                        named_report("missing foreign binding for `"@, name@, "`"@)
                    }
                },
            },
    {
        match self.find(name, signature) {
            (Some(address), _) => Ok(address),
            (None, true) => Err(
                named_error("foreign binding signature mismatch for `", name, "`"),
            ),
            (None, false) => Err(named_error("missing foreign binding for `", name, "`")),
        }
    }
}

impl Default for ForeignRegistry {
    fn default() -> (registry: Self)
        ensures
            registry@ == Map::<ForeignKey, usize>::empty(),
    {
        Self::new()
    }
}

/// The report about the failure of a wrapper.
pub open spec fn foreign_text(kind: i32, value: i64) -> Seq<char> {
    if kind == 0 {
        "foreign call failed with native status "@ + signed_decimal(value as int)
    } else if kind == 1 {
        "foreign bool result must be 0 or 1, found "@ + signed_decimal(value as int)
    } else if kind == 2 {
        "foreign char result is not a Unicode scalar: "@ + signed_decimal(value as int)
    } else {
        "invalid foreign runtime state"@
    }
}

/// Records the failure of a wrapper: its status (0), or a result that is no `bool`
/// (1) or no character (2).
pub fn aster_rt_foreign_error(context: Option<&mut ExecutionContext>, kind: i32, value: i64)
    requires
        context matches Some(c) ==> c.wf(),
    ensures
        context matches Some(c) ==> final(c).wf() && final(c).only_failed(
            *c,
            foreign_text(kind, value),
        ),
{
    if let Some(context) = context {
        if kind != 0 && kind != 1 && kind != 2 {
            context.fail_with("invalid foreign runtime state");
            return ;
        }
        let mut message: String = if kind == 0 {
            "foreign call failed with native status ".to_owned()
        } else if kind == 1 {
            "foreign bool result must be 0 or 1, found ".to_owned()
        } else {
            "foreign char result is not a Unicode scalar: ".to_owned()
        };
        push_signed_decimal(&mut message, value);
        context.fail(message);
    }
}

/// The bindings after wrappers were registered in this order.
pub open spec fn bindings_after(calls: Seq<(ForeignKey, usize)>, n: int) -> Map<ForeignKey, usize>
    decreases n,
{
    if n <= 0 {
        Map::empty()
    } else {
        registered(bindings_after(calls, n - 1), calls[n - 1].0, calls[n - 1].1)
    }
}

/// After any registrations, a name and signature lead to the wrapper that was
/// accepted for them first, and to nothing where none was accepted.
pub proof fn law_first_registration_stays(calls: Seq<(ForeignKey, usize)>, n: int, key: ForeignKey)
    requires
        0 <= n <= calls.len(),
    ensures
        bindings_after(calls, n).contains_key(key) <==> exists|i: int|
            0 <= i < n && (#[trigger] calls[i]).0 == key && is_acceptable(key, calls[i].1),
        forall|i: int|
            {
                &&& 0 <= i < n
                &&& (#[trigger] calls[i]).0 == key
                &&& is_acceptable(key, calls[i].1)
                &&& !bindings_after(calls, i).contains_key(key)
            } ==> bindings_after(calls, n)[key] == calls[i].1,
    decreases n,
{
    if n > 0 {
        law_first_registration_stays(calls, n - 1, key);
        let last = calls[n - 1];
        let earlier = bindings_after(calls, n - 1);
        if last.0 == key && is_acceptable(key, last.1) {
            assert(calls[n - 1].0 == key);
        }
        if earlier.contains_key(key) {
            let i = choose|i: int|
                0 <= i < n - 1 && (#[trigger] calls[i]).0 == key && is_acceptable(key, calls[i].1);
            assert(0 <= i < n && calls[i].0 == key);
        }
        assert forall|i: int|
            {
                &&& 0 <= i < n
                &&& (#[trigger] calls[i]).0 == key
                &&& is_acceptable(key, calls[i].1)
                &&& !bindings_after(calls, i).contains_key(key)
            } implies bindings_after(calls, n)[key] == calls[i].1 by {
            if i < n - 1 {
                assert(earlier.contains_key(key)) by {
                    assert(0 <= i < n - 1 && calls[i].0 == key);
                }
            }
        }
    }
}

} // verus!
