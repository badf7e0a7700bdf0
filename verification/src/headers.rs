//! Header reconciliation: normalizes the source header row and appends the
//! declared columns that are absent from it, in declaration order.

use vstd::prelude::*;
use crate::config::Config;
use heck::ToSnakeCase;

verus! {

/// The snake_case form of a header, as heck's conversion produces it.
pub uninterp spec fn snake_of(s: Seq<char>) -> Seq<char>;

/// Whether every character of `s` is ASCII.
pub open spec fn ascii_chars(s: Seq<char>) -> bool {
    forall|i: int| 0 <= i < s.len() ==> (s[i] as u32) < 128
}

/// Relies on heck's `ToSnakeCase::to_snake_case` for `str`: the result is a
/// function of the characters alone, named `snake_of`. An ASCII result is a
/// fixed point of the conversion: it is then lowercase ASCII words joined by
/// single underscores, with no leading or trailing separator, and converting
/// it again changes nothing. (A non-ASCII result need not be one: Unicode
/// lowercasing can emit combining marks, which a second conversion treats as
/// word boundaries and drops.)
#[verifier::external_body]
fn to_snake(s: &str) -> (r: String)
    ensures
        r@ == snake_of(s@),
        ascii_chars(r@) ==> snake_of(r@) == r@,
{
    s.to_snake_case()
}

/// The headers of the run: the normalized source headers, and those followed
/// by the declared columns absent from them.
#[derive(PartialEq, Eq, Debug)]
pub struct HeaderInfo {
    pub original_headers: Vec<String>,
    pub total_headers: Vec<String>,
}

/// The views of a sequence of strings.
pub open spec fn views_of(v: Seq<String>) -> Seq<Seq<char>> {
    v.map_values(|s: String| s@)
}

/// The declared names of `decls` that occur neither in `orig` nor earlier in
/// `decls`, in declaration order.
pub open spec fn absent_decls(orig: Seq<Seq<char>>, decls: Seq<Seq<char>>) -> Seq<Seq<char>>
    decreases decls.len(),
{
    if decls.len() == 0 {
        Seq::empty()
    } else {
        let rest = absent_decls(orig, decls.drop_last());
        if orig.contains(decls.last()) || decls.drop_last().contains(decls.last()) {
            rest
        } else {
            rest.push(decls.last())
        }
    }
}

/// Every name in `absent_decls(orig, decls)` is a declared name that the
/// source does not carry, and conversely every such name is appended.
pub proof fn lemma_absent_decls_membership(
    orig: Seq<Seq<char>>,
    decls: Seq<Seq<char>>,
    x: Seq<char>,
)
    ensures
        absent_decls(orig, decls).contains(x) <==> (decls.contains(x) && !orig.contains(x)),
    decreases decls.len(),
{
    if decls.len() == 0 {
    } else {
        let dl = decls.drop_last();
        lemma_absent_decls_membership(orig, dl, x);
        assert(decls.contains(x) ==> (dl.contains(x) || decls.last() == x)) by {
            if decls.contains(x) {
                let j = choose|j: int| 0 <= j < decls.len() && decls[j] == x;
                if j < decls.len() - 1 {
                    assert(dl[j] == x);
                }
            }
        }
        assert(dl.contains(x) ==> decls.contains(x)) by {
            if dl.contains(x) {
                let j = choose|j: int| 0 <= j < dl.len() && dl[j] == x;
                assert(decls[j] == x);
            }
        }
        assert(decls.contains(decls.last())) by {
            assert(decls[decls.len() - 1] == decls.last());
        }
        let rest = absent_decls(orig, dl);
        if !(orig.contains(decls.last()) || dl.contains(decls.last())) {
            let cur = rest.push(decls.last());
            assert(cur.contains(x) ==> (rest.contains(x) || x == decls.last())) by {
                if cur.contains(x) {
                    let j = choose|j: int| 0 <= j < cur.len() && cur[j] == x;
                    if j < rest.len() {
                        assert(rest[j] == x);
                    }
                }
            }
            assert(rest.contains(x) ==> cur.contains(x)) by {
                if rest.contains(x) {
                    let j = choose|j: int| 0 <= j < rest.len() && rest[j] == x;
                    assert(cur[j] == x);
                }
            }
            assert(cur.contains(cur.last())) by {
                assert(cur[cur.len() - 1] == cur.last());
            }
        }
    }
}

/// The appended names hold no duplicates.
pub proof fn lemma_absent_decls_distinct(orig: Seq<Seq<char>>, decls: Seq<Seq<char>>)
    ensures
        forall|i: int, j: int|
            0 <= i < j < absent_decls(orig, decls).len() ==> absent_decls(orig, decls)[i]
                != absent_decls(orig, decls)[j],
    decreases decls.len(),
{
    if decls.len() == 0 {
    } else {
        lemma_absent_decls_distinct(orig, decls.drop_last());
        let rest = absent_decls(orig, decls.drop_last());
        let last = decls.last();
        if !(orig.contains(last) || decls.drop_last().contains(last)) {
            assert forall|i: int| 0 <= i < rest.len() implies rest[i] != last by {
                lemma_absent_decls_membership(orig, decls.drop_last(), rest[i]);
            }
        }
    }
}

/// The position of the first occurrence of `x` in `s`.
pub open spec fn first_idx(s: Seq<Seq<char>>, x: Seq<char>) -> int
    decreases s.len(),
{
    if s.len() == 0 {
        0
    } else if s[0] == x {
        0
    } else {
        1 + first_idx(s.drop_first(), x)
    }
}

proof fn lemma_first_idx_props(s: Seq<Seq<char>>, x: Seq<char>)
    requires
        s.contains(x),
    ensures
        0 <= first_idx(s, x) < s.len(),
        s[first_idx(s, x)] == x,
    decreases s.len(),
{
    if s[0] == x {
    } else {
        assert(s.drop_first().contains(x)) by {
            let j = choose|j: int| 0 <= j < s.len() && s[j] == x;
            assert(s.drop_first()[j - 1] == x);
        }
        lemma_first_idx_props(s.drop_first(), x);
    }
}

proof fn lemma_first_idx_push(s: Seq<Seq<char>>, x: Seq<char>, y: Seq<char>)
    ensures
        s.contains(x) ==> first_idx(s.push(y), x) == first_idx(s, x),
        !s.contains(x) && y == x ==> first_idx(s.push(y), x) == s.len(),
    decreases s.len(),
{
    if s.len() == 0 {
        if y == x {
            assert(s.push(y)[0] == y);
        }
    } else {
        assert(s.push(y).drop_first() =~= s.drop_first().push(y));
        if s[0] == x {
        } else {
            assert(s.contains(x) ==> s.drop_first().contains(x)) by {
                if s.contains(x) {
                    let j = choose|j: int| 0 <= j < s.len() && s[j] == x;
                    assert(s.drop_first()[j - 1] == x);
                }
            }
            assert(s.drop_first().contains(x) ==> s.contains(x)) by {
                if s.drop_first().contains(x) {
                    let j = choose|j: int| 0 <= j < s.drop_first().len() && s.drop_first()[j] == x;
                    assert(s[j + 1] == x);
                }
            }
            lemma_first_idx_push(s.drop_first(), x, y);
        }
    }
}

/// Law: the full output header list is the normalized source headers,
/// verbatim and in source order, followed by exactly the declared names
/// absent from the source, each exactly once, ordered by their first
/// occurrence among the declarations.
pub proof fn lemma_output_header_shape(orig: Seq<Seq<char>>, decls: Seq<Seq<char>>)
    ensures
        (orig + absent_decls(orig, decls)).take(orig.len() as int) == orig,
        forall|i: int|
            0 <= i < absent_decls(orig, decls).len() ==> decls.contains(
                #[trigger] absent_decls(orig, decls)[i],
            ) && !orig.contains(absent_decls(orig, decls)[i]),
        forall|i: int, j: int|
            0 <= i < j < absent_decls(orig, decls).len() ==> absent_decls(orig, decls)[i]
                != absent_decls(orig, decls)[j],
        forall|x: Seq<char>|
            decls.contains(x) && !orig.contains(x) ==> absent_decls(orig, decls).contains(x),
        forall|i: int, j: int|
            0 <= i < j < absent_decls(orig, decls).len() ==> first_idx(
                decls,
                absent_decls(orig, decls)[i],
            ) < first_idx(decls, absent_decls(orig, decls)[j]),
    decreases decls.len(),
{
    assert((orig + absent_decls(orig, decls)).take(orig.len() as int) =~= orig);
    lemma_absent_decls_distinct(orig, decls);
    assert forall|i: int| 0 <= i < absent_decls(orig, decls).len() implies decls.contains(
        #[trigger] absent_decls(orig, decls)[i],
    ) && !orig.contains(absent_decls(orig, decls)[i]) by {
        lemma_absent_decls_membership(orig, decls, absent_decls(orig, decls)[i]);
        assert(absent_decls(orig, decls).contains(absent_decls(orig, decls)[i]));
    }
    assert forall|x: Seq<char>| decls.contains(x) && !orig.contains(x) implies absent_decls(
        orig,
        decls,
    ).contains(x) by {
        lemma_absent_decls_membership(orig, decls, x);
    }
    if decls.len() > 0 {
        let dl = decls.drop_last();
        let a_dl = absent_decls(orig, dl);
        let a = absent_decls(orig, decls);
        lemma_output_header_shape(orig, dl);
        assert(decls =~= dl.push(decls.last()));
        assert forall|i: int| 0 <= i < a_dl.len() implies first_idx(decls, #[trigger] a_dl[i])
            == first_idx(dl, a_dl[i]) && first_idx(dl, a_dl[i]) < dl.len() by {
            assert(a_dl.contains(a_dl[i]));
            lemma_absent_decls_membership(orig, dl, a_dl[i]);
            lemma_first_idx_push(dl, a_dl[i], decls.last());
            lemma_first_idx_props(dl, a_dl[i]);
        }
        if !(orig.contains(decls.last()) || dl.contains(decls.last())) {
            assert(a == a_dl.push(decls.last()));
            lemma_first_idx_push(dl, decls.last(), decls.last());
            assert(first_idx(decls, decls.last()) == dl.len());
            assert forall|i: int, j: int| 0 <= i < j < a.len() implies first_idx(decls, a[i])
                < first_idx(decls, a[j]) by {
                if j < a_dl.len() {
                    assert(a[i] == a_dl[i] && a[j] == a_dl[j]);
                } else {
                    assert(a[j] == decls.last());
                    assert(a[i] == a_dl[i]);
                }
            }
        } else {
            assert(a == a_dl);
        }
    }
}

impl HeaderInfo {
    /// Well-formedness: the total headers are the normalized source headers
    /// followed by the declared names absent from them.
    pub open spec fn wf(&self, cfg: Config, source: Seq<Seq<char>>) -> bool {
        &&& self.original_headers@.len() == source.len()
        &&& forall|i: int|
            0 <= i < source.len() ==> self.original_headers@[i]@ == snake_of(source[i])
        &&& views_of(self.total_headers@) == views_of(self.original_headers@) + absent_decls(
            views_of(self.original_headers@),
            views_of(cfg.columns@.map_values(|c: crate::config::ColDef| c.name)),
        )
    }
}

/// Whether `v` holds a string that reads `x`.
fn contains_string(v: &Vec<String>, x: &String) -> (r: bool)
    ensures
        r == views_of(v@).contains(x@),
{
    let mut i: usize = 0;
    while i < v.len()
        invariant
            i <= v@.len(),
            forall|j: int| 0 <= j < i ==> v@[j]@ != x@,
        decreases v@.len() - i,
    {
        if v[i] == *x {
            proof {
                assert(views_of(v@)[i as int] == x@);
            }
            return true;
        }
        i = i + 1;
    }
    proof {
        if views_of(v@).contains(x@) {
            let j = choose|j: int| 0 <= j < views_of(v@).len() && views_of(v@)[j] == x@;
            assert(v@[j]@ == x@);
        }
    }
    false
}

/// Reconciles the source header row with the declared columns: normalizes
/// every source header, then appends each declared name not already present,
/// in declaration order, each exactly once.
pub fn get_header_info(cfg: &Config, source_headers: &Vec<String>) -> (r: HeaderInfo)
    ensures
        r.wf(*cfg, views_of(source_headers@)),
        // Normalization is idempotent on ASCII results: such normalized
        // headers are fixed points of the conversion.
        forall|i: int|
            0 <= i < r.original_headers@.len() && ascii_chars(#[trigger] r.original_headers@[i]@)
                ==> snake_of(r.original_headers@[i]@) == r.original_headers@[i]@,
{
    let mut original: Vec<String> = Vec::new();
    let mut i: usize = 0;
    while i < source_headers.len()
        invariant
            i <= source_headers@.len(),
            original@.len() == i,
            forall|j: int| 0 <= j < i ==> original@[j]@ == snake_of(source_headers@[j]@),
            forall|j: int|
                0 <= j < i && ascii_chars(#[trigger] original@[j]@) ==> snake_of(original@[j]@)
                    == original@[j]@,
        decreases source_headers@.len() - i,
    {
        original.push(to_snake(source_headers[i].as_str()));
        i = i + 1;
    }

    let ghost orig_views = views_of(original@);
    let decls = cfg.get_headers();
    let mut total: Vec<String> = Vec::new();
    let mut k: usize = 0;
    while k < original.len()
        invariant
            k <= original@.len(),
            total@.len() == k,
            forall|j: int| 0 <= j < k ==> total@[j] == original@[j],
        decreases original@.len() - k,
    {
        total.push(original[k].clone());
        k = k + 1;
    }
    proof {
        assert(views_of(total@) =~= orig_views + absent_decls(orig_views, views_of(
            decls@.take(0),
        )));
    }

    let mut d: usize = 0;
    while d < decls.len()
        invariant
            d <= decls@.len(),
            orig_views == views_of(original@),
            views_of(total@) == orig_views + absent_decls(orig_views, views_of(decls@.take(
                d as int,
            ))),
        decreases decls@.len() - d,
    {
        let ghost prev = views_of(decls@.take(d as int));
        let ghost cur_name = decls@[d as int]@;
        let ghost total_pre = total@;
        proof {
            assert(views_of(decls@.take(d + 1)) =~= prev.push(cur_name));
        }
        if !contains_string(&total, &decls[d]) {
            proof {
                lemma_total_absent_split(orig_views, prev, cur_name);
            }
            total.push(decls[d].clone());
            proof {
                assert(views_of(total@) =~= views_of(total_pre).push(cur_name));
                assert(orig_views + absent_decls(orig_views, prev).push(cur_name) =~= (orig_views
                    + absent_decls(orig_views, prev)).push(cur_name));
                assert(views_of(total@) =~= orig_views + absent_decls(orig_views, views_of(
                    decls@.take(d + 1),
                )));
            }
        } else {
            proof {
                lemma_total_contains_split(orig_views, prev, cur_name);
                assert(views_of(total@) =~= orig_views + absent_decls(orig_views, views_of(
                    decls@.take(d + 1),
                )));
            }
        }
        d = d + 1;
    }
    proof {
        assert(decls@.take(decls@.len() as int) =~= decls@);
        assert(forall|j: int|
            0 <= j < decls@.len() ==> views_of(decls@)[j] == cfg.columns@.map_values(
                |c: crate::config::ColDef| c.name,
            )[j]@);
        assert(views_of(decls@) =~= views_of(cfg.columns@.map_values(
            |c: crate::config::ColDef| c.name,
        )));
    }
    HeaderInfo { original_headers: original, total_headers: total }
}

/// If a name is not in the running total (source headers plus names appended
/// so far), appending it extends the absent-name sequence by that name.
proof fn lemma_total_absent_split(orig: Seq<Seq<char>>, prev: Seq<Seq<char>>, x: Seq<char>)
    requires
        !(orig + absent_decls(orig, prev)).contains(x),
    ensures
        absent_decls(orig, prev.push(x)) == absent_decls(orig, prev).push(x),
{
    assert(prev.push(x).drop_last() =~= prev);
    lemma_absent_decls_membership(orig, prev, x);
    if orig.contains(x) {
        assert((orig + absent_decls(orig, prev)).contains(x)) by {
            let j = choose|j: int| 0 <= j < orig.len() && orig[j] == x;
            assert((orig + absent_decls(orig, prev))[j] == x);
        }
    }
    if prev.contains(x) {
        assert(absent_decls(orig, prev).contains(x));
        let j = choose|j: int|
            0 <= j < absent_decls(orig, prev).len() && absent_decls(orig, prev)[j] == x;
        assert((orig + absent_decls(orig, prev))[orig.len() + j] == x);
    }
}

/// If a name is already in the running total, appending it changes nothing.
proof fn lemma_total_contains_split(orig: Seq<Seq<char>>, prev: Seq<Seq<char>>, x: Seq<char>)
    requires
        (orig + absent_decls(orig, prev)).contains(x),
    ensures
        absent_decls(orig, prev.push(x)) == absent_decls(orig, prev),
{
    assert(prev.push(x).drop_last() =~= prev);
    let j = choose|j: int|
        0 <= j < (orig + absent_decls(orig, prev)).len() && (orig + absent_decls(orig, prev))[j]
            == x;
    if j < orig.len() {
        assert(orig.contains(x));
    } else {
        assert(absent_decls(orig, prev)[j - orig.len()] == x);
        lemma_absent_decls_membership(orig, prev, x);
    }
}

} // verus!
