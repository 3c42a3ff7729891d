//! Name and text computations behind the crate's code generators: the fresh type parameter
//! name of the `LatticeOrd` derive, the names of the operator property structs, and the
//! documentation lines of an operator definition.
use convert_case::{Case, Casing};
use vstd::prelude::*;
use vstd::string::StrSliceExecFns;

use crate::text::push_str;

verus! {

/// `Rhs` followed by `k` underscores.
pub open spec fn rhs_candidate(k: nat) -> Seq<char> {
    "Rhs"@ + Seq::new(k, |_i: int| '_')
}

/// Whether `s` is an ASCII identifier: a letter, then letters, digits and underscores.
pub open spec fn is_ascii_ident(s: Seq<char>) -> bool {
    &&& s.len() > 0
    &&& ('a' <= s[0] <= 'z' || 'A' <= s[0] <= 'Z')
    &&& forall|i: int|
        0 <= i < s.len() ==> ('a' <= #[trigger] s[i] <= 'z' || 'A' <= s[i] <= 'Z' || '0' <= s[i]
            <= '9' || s[i] == '_')
}

/// Every candidate is an identifier.
pub proof fn lemma_rhs_candidate_is_ident(k: nat)
    ensures
        is_ascii_ident(rhs_candidate(k)),
{
    reveal_strlit("Rhs");
    let c = rhs_candidate(k);
    assert forall|i: int| 0 <= i < c.len() implies ('a' <= #[trigger] c[i] <= 'z' || 'A' <= c[i] <= 'Z'
        || '0' <= c[i] <= '9' || c[i] == '_') by {
        if i >= 3 {
            assert(c[i] == '_');
        }
    }
}

/// Whether `c` is the type's name or the name of one of its generic parameters.
pub open spec fn name_taken(self_name: Seq<char>, params: Seq<Seq<char>>, c: Seq<char>) -> bool {
    c == self_name || params.contains(c)
}

/// The names of generic parameters, as text.
pub open spec fn param_names(params: Seq<String>) -> Seq<Seq<char>> {
    params.map_values(|p: String| p@)
}

fn is_taken(self_name: &String, params: &Vec<String>, c: &String) -> (r: bool)
    ensures
        r == name_taken(self_name@, param_names(params@), c@),
{
    let ghost names = param_names(params@);
    if *c == *self_name {
        return true;
    }
    let mut i: usize = 0;
    while i < params.len()
        invariant
            i <= params@.len(),
            names == param_names(params@),
            forall|j: int| 0 <= j < i ==> names[j] != c@,
        decreases params@.len() - i,
    {
        if params[i] == *c {
            assert(names[i as int] == c@);
            return true;
        }
        i = i + 1;
    }
    assert(!names.contains(c@));
    false
}

/// The name for the right-hand-side type parameter of a derived `LatticeOrd` impl: `Rhs`,
/// with as few underscores appended as make it differ from the type's name and from every
/// generic parameter's name. The result is always an identifier.
pub fn fresh_rhs_ident(self_name: &String, params: &Vec<String>) -> (r: String)
    ensures
        is_ascii_ident(r@),
        !name_taken(self_name@, param_names(params@), r@),
        exists|k: nat| {
            &&& r@ == rhs_candidate(k)
            &&& !name_taken(self_name@, param_names(params@), rhs_candidate(k))
            &&& forall|j: nat| j < k ==> #[trigger] name_taken(
                self_name@,
                param_names(params@),
                rhs_candidate(j),
            )
        },
{
    let ghost names = param_names(params@);
    let ghost all = names.push(self_name@);
    proof {
        reveal_strlit("Rhs");
        all.lemma_cardinality_of_set();
        vstd::seq_lib::seq_to_set_is_finite(all);
    }
    let mut rhs = "Rhs".to_owned();
    let ghost mut k: nat = 0;
    let ghost mut seen: Set<Seq<char>> = Set::empty();
    while is_taken(self_name, params, &rhs)
        invariant
            names == param_names(params@),
            all == names.push(self_name@),
            all.to_set().finite(),
            all.to_set().len() <= names.len() + 1,
            rhs@ == rhs_candidate(k),
            forall|j: nat| j < k ==> #[trigger] name_taken(self_name@, names, rhs_candidate(j)),
            seen == Set::new(|c: Seq<char>| exists|j: nat| j < k && c == rhs_candidate(j)),
            seen.finite(),
            seen.len() == k,
            seen.subset_of(all.to_set()),
            forall|c: Seq<char>| #[trigger] seen.contains(c) ==> c.len() < k + 3,
        decreases names.len() + 1 - k,
    {
        proof {
            reveal_strlit("Rhs");
            let c = rhs_candidate(k);
            assert(c.len() == k + 3);
            assert(!seen.contains(c));
            assert(all.to_set().contains(c)) by {
                if c == self_name@ {
                    assert(all[names.len() as int] == c);
                } else {
                    let i = choose|i: int| 0 <= i < names.len() && names[i] == c;
                    assert(all[i] == c);
                }
            }
            let seen2 = seen.insert(c);
            assert(seen2 =~= Set::new(|x: Seq<char>| exists|j: nat| j < k + 1 && x == rhs_candidate(j))) by {
                assert forall|x: Seq<char>| seen2.contains(x) implies exists|j: nat| j < k + 1 && x == rhs_candidate(j) by {
                    if x == c {
                        assert(k < k + 1 && x == rhs_candidate(k));
                    }
                }
            }
            vstd::set_lib::lemma_len_subset(seen2, all.to_set());
            seen = seen2;
            assert(forall|j: nat| j < k + 1 ==> #[trigger] name_taken(self_name@, names, rhs_candidate(j)));
        }
        let mut next = String::new();
        push_str(&mut next, rhs.as_str());
        push_str(&mut next, "_");
        proof {
            reveal_strlit("_");
            assert(next@ =~= rhs_candidate(k + 1));
            k = k + 1;
        }
        rhs = next;
    }
    proof {
        lemma_rhs_candidate_is_ident(k);
    }
    rhs
}

/// What `s.to_case(Case::Pascal)` of the `convert_case` crate gives: the words of `s`, each
/// capitalized, joined without separators.
pub uninterp spec fn pascal_case(s: Seq<char>) -> Seq<char>;

/// `s` in Pascal case (`convert_case`'s `Casing::to_case` with `Case::Pascal`).
#[verifier::external_body]
pub(crate) fn to_pascal_case(s: &str) -> (r: String)
    ensures
        r@ == pascal_case(s@),
{
    s.to_case(Case::Pascal)
}

/// The names of the operator property structs: each operator's name in Pascal case, followed
/// by `Props`.
pub fn props_struct_names(op_names: &Vec<String>) -> (r: Vec<String>)
    ensures
        r@.len() == op_names@.len(),
        forall|i: int| 0 <= i < op_names@.len() ==> (#[trigger] r@[i])@ == pascal_case(op_names@[i]@) + "Props"@,
{
    let mut out: Vec<String> = Vec::new();
    let mut i: usize = 0;
    while i < op_names.len()
        invariant
            i <= op_names@.len(),
            out@.len() == i,
            forall|j: int| 0 <= j < i ==> (#[trigger] out@[j])@ == pascal_case(op_names@[j]@) + "Props"@,
        decreases op_names@.len() - i,
    {
        let mut name = to_pascal_case(op_names[i].as_str());
        push_str(&mut name, "Props");
        out.push(name);
        i = i + 1;
    }
    out
}

/// A token of an attribute's body.
pub enum DocToken {
    /// A punctuation character.
    Punct(char),
    /// A string literal, with its value.
    StrLit(String),
    /// Any other token.
    Other,
}

/// An attribute of an item, reduced to what documentation extraction looks at.
pub struct DocAttr {
    /// Whether the attribute is an outer one (`#[..]`, not `#![..]`).
    pub outer: bool,
    /// Whether its path is `doc`.
    pub is_doc: bool,
    /// The tokens after the path.
    pub tokens: Vec<DocToken>,
}

/// `s` without one leading space, if it has one.
pub open spec fn strip_space(s: Seq<char>) -> Seq<char> {
    if s.len() > 0 && s[0] == ' ' {
        s.drop_first()
    } else {
        s
    }
}

/// The documentation line an attribute carries: an outer `doc` attribute of exactly the
/// tokens `=` and a string literal gives the literal's value, less one leading space.
pub open spec fn doc_of(a: DocAttr) -> Option<Seq<char>> {
    if a.outer && a.is_doc && a.tokens@.len() == 2 && a.tokens@[0] == DocToken::Punct('=') {
        match a.tokens@[1] {
            DocToken::StrLit(s) => Some(strip_space(s@)),
            _ => None,
        }
    } else {
        None
    }
}

/// The documentation lines of `attrs`, in order.
pub open spec fn doc_lines_of(attrs: Seq<DocAttr>) -> Seq<Seq<char>>
    decreases attrs.len(),
{
    if attrs.len() == 0 {
        Seq::empty()
    } else {
        let rest = doc_lines_of(attrs.drop_last());
        match doc_of(attrs.last()) {
            Some(line) => rest.push(line),
            None => rest,
        }
    }
}

fn strip_leading_space(s: &String) -> (r: String)
    ensures
        r@ == strip_space(s@),
{
    let t = s.as_str();
    let n = t.unicode_len();
    if n > 0 && t.get_char(0) == ' ' {
        t.substring_char(1, n).to_owned()
    } else {
        t.to_owned()
    }
}

/// The documentation lines carried by `attrs`, in order; see [`doc_of`].
pub fn doc_lines(attrs: &Vec<DocAttr>) -> (r: Vec<String>)
    ensures
        r@.map_values(|s: String| s@) == doc_lines_of(attrs@),
{
    let mut out: Vec<String> = Vec::new();
    let mut i: usize = 0;
    while i < attrs.len()
        invariant
            i <= attrs@.len(),
            out@.map_values(|s: String| s@) == doc_lines_of(attrs@.take(i as int)),
        decreases attrs@.len() - i,
    {
        let a = &attrs[i];
        proof {
            assert(attrs@.take(i + 1).drop_last() == attrs@.take(i as int));
            assert(attrs@.take(i + 1).last() == *a);
        }
        let mut line: Option<String> = None;
        if a.outer && a.is_doc && a.tokens.len() == 2 {
            let is_eq = match &a.tokens[0] {
                DocToken::Punct(c) => *c == '=',
                _ => false,
            };
            if is_eq {
                match &a.tokens[1] {
                    DocToken::StrLit(s) => {
                        line = Some(strip_leading_space(s));
                    },
                    _ => {},
                }
            }
        }
        assert(match line {
            Some(l) => doc_of(*a) == Some(l@),
            None => doc_of(*a) is None,
        });
        match line {
            Some(l) => {
                let ghost before = out@;
                let ghost ll = l;
                out.push(l);
                assert(out@.map_values(|s: String| s@) =~= before.map_values(|s: String| s@).push(ll@));
            },
            None => {},
        }
        i = i + 1;
    }
    assert(attrs@.take(attrs@.len() as int) == attrs@);
    out
}

} // verus!
