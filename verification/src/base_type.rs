use vstd::prelude::*;

use core::cmp::Ordering;
use core::marker::PhantomData;
use std::sync::Arc;
use vstd::std_specs::cmp::PartialEqSpec;
use vstd::string::StrSliceExecFns;

use crate::table::InternTable;
use crate::validator::Validator;

verus! {

/// An interned symbol of domain `V`: an owning, cheaply cloneable handle
/// to one shared, immutable text buffer.
///
/// The domain tag `V` has no runtime representation; it makes symbols of
/// different domains incompatible types and selects which validation
/// policy every construction path enforces. Every `Symbol<V>` that exists
/// holds content accepted by `V`, no matter which domain first interned
/// that content.
///
/// Equality, ordering and hashing are defined over the content.
#[derive(Debug, Hash, Ord)]
pub struct Symbol<V: Validator + ?Sized>(
    pub(crate) Arc<String>,
    pub(crate) PhantomData<V>,
);

impl<V: Validator + ?Sized> View for Symbol<V> {
    type V = Seq<char>;

    closed spec fn view(&self) -> Seq<char> {
        self.0@
    }
}

impl<V: Validator + ?Sized> Symbol<V> {
    /// Every handle a domain hands out holds content its own policy
    /// accepts, regardless of who first interned that content: the
    /// invariant of the type, established by every construction path and
    /// kept by every operation.
    #[verifier::type_invariant]
    pub open spec fn policy_holds(self) -> bool {
        V::accepts(self@)
    }

    /// Borrow the symbol's content: text this symbol's own domain
    /// accepts.
    pub fn as_str(&self) -> (r: &str)
        ensures
            r@ == self@,
            V::accepts(r@),
    {
        proof {
            use_type_invariant(self);
        }
        String::as_str(arc_borrow(&self.0))
    }

    /// The symbol's content as an owned string; parsing it again under
    /// the same domain is accepted (see `lemma_round_trip`).
    pub fn to_text(&self) -> (r: String)
        ensures
            r@ == self@,
            V::accepts(r@),
    {
        self.as_str().to_owned()
    }

    /// Intern trusted constant content. The content must be accepted by
    /// `V`: this construction path is meant for constants known to be
    /// valid, so handing it invalid content is a programming defect, not
    /// a runtime condition — reached with one from unverified code, it
    /// halts the process instead of returning. Use
    /// [`InternTable::resolve`] for untrusted input.
    pub fn from(table: &mut InternTable, s: &str) -> (r: Symbol<V>)
        requires
            V::accepts(s@),
            old(table)@.dom().contains(s@) ==> old(table)@[s@] < usize::MAX,
        ensures
            r@ == s@,
            old(table)@.dom().contains(s@) ==> final(table)@ == old(table)@.insert(
                s@,
                old(table)@[s@] + 1,
            ) && final(table).spec_len() == old(table).spec_len(),
            !old(table)@.dom().contains(s@) ==> final(table)@ == old(table)@.insert(s@, 1)
                && final(table).spec_len() == old(table).spec_len() + 1,
    {
        match table.resolve::<V>(s) {
            Ok(sym) => sym,
            Err(_) => vstd::pervasive::unreached(),
        }
    }

    /// Whether two handles share one backing allocation. Shared storage
    /// implies equal content; the converse need not hold, since equal
    /// content may live in two allocations once its table slot was
    /// reclaimed and the content interned afresh.
    pub fn same_storage(&self, other: &Symbol<V>) -> (r: bool)
        ensures
            r ==> self@ == other@,
    {
        arc_ptr_eq(&self.0, &other.0)
    }
}

impl<V: Validator + ?Sized> Clone for Symbol<V> {
    /// Cloning is cheap: it shares the backing allocation and touches no
    /// table. The clone is the same symbol.
    fn clone(&self) -> (r: Self)
        ensures
            r == *self,
    {
        proof {
            use_type_invariant(self);
        }
        Symbol(arc_clone(&self.0), PhantomData)
    }
}

/// Law: interning converges — two handles of one domain over the same
/// content are one symbol: equal under `==` and equivalent under the
/// lexical order, however and in whatever order they were obtained.
/// `InternTable::resolve` pins each handle's content to the text it was
/// given, so this covers any two successful resolutions of one text.
pub proof fn lemma_same_content_same_symbol<V: Validator + ?Sized>(a: Symbol<V>, b: Symbol<V>)
    requires
        a@ == b@,
    ensures
        a.eq_spec(&b),
        lex_cmp(a@, b@) == Ordering::Equal,
{
    lemma_lex_cmp_equal_iff(a@, b@);
}

/// Law: round trip — rendering a symbol to text (`to_text`, which
/// returns exactly the symbol's content) and parsing that text again
/// under the symbol's own domain cannot be rejected (`resolve` returns
/// `Ok`), and every handle parsed from it is equal to the original.
pub proof fn lemma_round_trip<V: Validator + ?Sized>(sym: Symbol<V>, text: Seq<char>)
    requires
        sym.policy_holds(),
        text == sym@,
    ensures
        V::accepts(text),
        forall|b: Symbol<V>| b@ == text ==> #[trigger] b.eq_spec(&sym),
{
}

/// Lexicographic comparison of two contents, character by character:
/// the order on symbols is the lexical order of what they hold.
pub open spec fn lex_cmp(a: Seq<char>, b: Seq<char>) -> Ordering
    decreases a.len(),
{
    if a.len() == 0 && b.len() == 0 {
        Ordering::Equal
    } else if a.len() == 0 {
        Ordering::Less
    } else if b.len() == 0 {
        Ordering::Greater
    } else if a[0] < b[0] {
        Ordering::Less
    } else if b[0] < a[0] {
        Ordering::Greater
    } else {
        lex_cmp(a.drop_first(), b.drop_first())
    }
}

/// Law: the lexical order deems two contents equivalent exactly when they
/// are equal, so symbol equality and symbol ordering agree.
pub proof fn lemma_lex_cmp_equal_iff(a: Seq<char>, b: Seq<char>)
    ensures
        lex_cmp(a, b) == Ordering::Equal <==> a == b,
    decreases a.len(),
{
    if a.len() == 0 && b.len() == 0 {
        assert(a =~= b);
    } else if a.len() == 0 || b.len() == 0 {
    } else {
        lemma_lex_cmp_equal_iff(a.drop_first(), b.drop_first());
        if a[0] == b[0] && a.drop_first() == b.drop_first() {
            assert forall|j: int| 0 <= j < a.len() implies a[j] == b[j] by {
                if j > 0 {
                    assert(a[j] == a.drop_first()[j - 1]);
                    assert(b[j] == b.drop_first()[j - 1]);
                }
            }
            assert(a =~= b);
        }
        if a == b {
            assert(a.drop_first() =~= b.drop_first());
        }
    }
}

/// Law: the lexical order is antisymmetric; swapping the operands swaps
/// `Less` and `Greater`.
pub proof fn lemma_lex_cmp_flip(a: Seq<char>, b: Seq<char>)
    ensures
        lex_cmp(a, b) == Ordering::Less <==> lex_cmp(b, a) == Ordering::Greater,
    decreases a.len(),
{
    if a.len() != 0 && b.len() != 0 && !(a[0] < b[0]) && !(b[0] < a[0]) {
        lemma_lex_cmp_flip(a.drop_first(), b.drop_first());
    }
}

/// Law: the lexical order is transitive. With `lemma_lex_cmp_equal_iff`
/// and `lemma_lex_cmp_flip` this makes it a total order on contents.
pub proof fn lemma_lex_cmp_transitive(a: Seq<char>, b: Seq<char>, c: Seq<char>)
    requires
        lex_cmp(a, b) == Ordering::Less,
        lex_cmp(b, c) == Ordering::Less,
    ensures
        lex_cmp(a, c) == Ordering::Less,
    decreases a.len(),
{
    if a.len() != 0 && b.len() != 0 && c.len() != 0 && !(a[0] < b[0]) && !(b[0] < a[0])
        && !(b[0] < c[0]) && !(c[0] < b[0]) {
        lemma_lex_cmp_transitive(a.drop_first(), b.drop_first(), c.drop_first());
    }
}

/// Dropping an equal prefix from both operands leaves the comparison
/// unchanged.
proof fn lemma_lex_cmp_common_prefix(a: Seq<char>, b: Seq<char>, i: int)
    requires
        0 <= i <= a.len(),
        i <= b.len(),
        forall|j: int| 0 <= j < i ==> a[j] == b[j],
    ensures
        lex_cmp(a, b) == lex_cmp(a.skip(i), b.skip(i)),
    decreases i,
{
    if i > 0 {
        lemma_lex_cmp_common_prefix(a.drop_first(), b.drop_first(), i - 1);
        assert(a.drop_first().skip(i - 1) =~= a.skip(i));
        assert(b.drop_first().skip(i - 1) =~= b.skip(i));
    } else {
        assert(a.skip(0) =~= a);
        assert(b.skip(0) =~= b);
    }
}

/// Compare two strings in the lexical order of their characters.
pub(crate) fn str_cmp(a: &str, b: &str) -> (r: Ordering)
    ensures
        r == lex_cmp(a@, b@),
{
    let na = a.unicode_len();
    let nb = b.unicode_len();
    let mut i: usize = 0;
    while i < na && i < nb
        invariant
            na == a@.len(),
            nb == b@.len(),
            i <= na,
            i <= nb,
            forall|j: int| 0 <= j < i ==> a@[j] == b@[j],
        decreases na - i,
    {
        let ca = a.get_char(i);
        let cb = b.get_char(i);
        if ca < cb {
            proof {
                lemma_lex_cmp_common_prefix(a@, b@, i as int);
            }
            return Ordering::Less;
        }
        if cb < ca {
            proof {
                lemma_lex_cmp_common_prefix(a@, b@, i as int);
            }
            return Ordering::Greater;
        }
        i = i + 1;
    }
    proof {
        lemma_lex_cmp_common_prefix(a@, b@, i as int);
    }
    if na < nb {
        Ordering::Less
    } else if nb < na {
        Ordering::Greater
    } else {
        Ordering::Equal
    }
}

/// Whether two strings hold equal characters.
pub(crate) fn str_eq(a: &str, b: &str) -> (r: bool)
    ensures
        r == (a@ == b@),
{
    proof {
        lemma_lex_cmp_equal_iff(a@, b@);
    }
    match str_cmp(a, b) {
        Ordering::Equal => true,
        _ => false,
    }
}

impl<V: Validator + ?Sized> PartialEq for Symbol<V> {
    /// Two symbols of one domain are equal exactly when their contents
    /// are equal.
    fn eq(&self, other: &Symbol<V>) -> (r: bool)
        ensures
            r == (self@ == other@),
    {
        str_eq(self.as_str(), other.as_str())
    }
}

impl<V: Validator + ?Sized> vstd::std_specs::cmp::PartialEqSpecImpl for Symbol<V> {
    open spec fn obeys_eq_spec() -> bool {
        true
    }

    open spec fn eq_spec(&self, other: &Symbol<V>) -> bool {
        self@ == other@
    }
}

impl<V: Validator + ?Sized> Eq for Symbol<V> {}

impl<V: Validator + ?Sized> core::borrow::Borrow<str> for Symbol<V> {
    /// Symbols borrow as their content, so a map keyed by symbols can be
    /// probed with plain text.
    fn borrow(&self) -> &str {
        self.as_str()
    }
}

impl<V: Validator + ?Sized> PartialOrd for Symbol<V> {
    /// Symbols of one domain are ordered by the lexical order of their
    /// contents; the order is total.
    fn partial_cmp(&self, other: &Symbol<V>) -> (r: Option<Ordering>)
        ensures
            r == Some(lex_cmp(self@, other@)),
    {
        Some(str_cmp(self.as_str(), other.as_str()))
    }
}

impl<V: Validator + ?Sized> vstd::std_specs::cmp::PartialOrdSpecImpl for Symbol<V> {
    open spec fn obeys_partial_cmp_spec() -> bool {
        true
    }

    open spec fn partial_cmp_spec(&self, other: &Symbol<V>) -> Option<Ordering> {
        Some(lex_cmp(self@, other@))
    }
}

/// Share the handle's backing allocation.
pub(crate) fn symbol_arc<V: Validator + ?Sized>(sym: &Symbol<V>) -> (r: Arc<String>)
    ensures
        r@ == sym@,
{
    arc_clone(&sym.0)
}

/// Wrap a backing allocation as a handle of domain `V`. The one
/// constructor of `Symbol`: callers must have validated the content.
pub(crate) fn symbol_from_arc<V: Validator + ?Sized>(content: Arc<String>) -> (r: Symbol<V>)
    requires
        V::accepts(content@),
    ensures
        r@ == content@,
{
    Symbol(content, PhantomData)
}

/// Relies on `Arc`'s `Deref`: borrowing through the handle yields the
/// very string the shared allocation holds.
#[verifier::external_body]
pub(crate) fn arc_borrow(a: &Arc<String>) -> (r: &String)
    ensures
        r@ == a@,
{
    &*a
}

/// Relies on `Arc::clone`: the new handle points to the same allocation
/// as the old one and so holds the same string.
#[verifier::external_body]
pub(crate) fn arc_clone(a: &Arc<String>) -> (r: Arc<String>)
    ensures
        r == *a,
{
    Arc::clone(a)
}

/// Relies on `Arc::ptr_eq`: true only when both handles point to one
/// allocation, which then holds one string.
#[verifier::external_body]
pub(crate) fn arc_ptr_eq(a: &Arc<String>, b: &Arc<String>) -> (r: bool)
    ensures
        r ==> a@ == b@,
{
    Arc::ptr_eq(a, b)
}

} // verus!
