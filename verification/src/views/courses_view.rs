//! State of the course-list view: the search filter over the definition
//! table and the default ordering of its rows.

use vstd::prelude::*;
use crate::models::course_definition::{CourseDefinition, DefModel};
use crate::services::course_manager::defs_view;
use crate::text::{contains_chars, spec_contains, str_le, str_to_chars};

verus! {

/// What `str::to_lowercase` returns: a function of the characters alone.
pub uninterp spec fn lower_of(s: Seq<char>) -> Seq<char>;

/// Relies on `str::to_lowercase`; the result depends only on the input's
/// characters, and an empty string stays empty.
#[verifier::external_body]
fn lowercase(s: &str) -> (r: String)
    ensures
        r@ == lower_of(s@),
        s@.len() == 0 ==> r@.len() == 0,
{
    s.to_lowercase()
}

/// The definition positions whose lowercased code contains the query,
/// ascending.
pub open spec fn spec_code_matches(defs: Seq<DefModel>, q: Seq<char>) -> Seq<usize>
    decreases defs.len(),
{
    if defs.len() == 0 {
        Seq::empty()
    } else {
        spec_code_matches(defs.drop_last(), q) + (if spec_contains(
            lower_of(defs.last().code),
            q,
        ) {
            seq![(defs.len() - 1) as usize]
        } else {
            Seq::empty()
        })
    }
}

/// The definition positions whose lowercased name contains the query,
/// ascending.
pub open spec fn spec_name_matches(defs: Seq<DefModel>, q: Seq<char>) -> Seq<usize>
    decreases defs.len(),
{
    if defs.len() == 0 {
        Seq::empty()
    } else {
        spec_name_matches(defs.drop_last(), q) + (if spec_contains(
            lower_of(defs.last().name),
            q,
        ) {
            seq![(defs.len() - 1) as usize]
        } else {
            Seq::empty()
        })
    }
}

/// The default row order: selected definitions first, then by code.
pub open spec fn spec_row_le(defs: Seq<DefModel>, a: usize, b: usize) -> bool {
    let ra: int = if defs[a as int].selected {
        0
    } else {
        1
    };
    let rb: int = if defs[b as int].selected {
        0
    } else {
        1
    };
    ra < rb || (ra == rb && crate::text::seq_le(defs[a as int].code, defs[b as int].code))
}

/// Stable insertion of a row position under the default order.
pub open spec fn spec_insert_row(defs: Seq<DefModel>, s: Seq<usize>, x: usize) -> Seq<usize>
    decreases s.len(),
{
    if s.len() == 0 {
        seq![x]
    } else if spec_row_le(defs, s.last(), x) {
        s.push(x)
    } else {
        spec_insert_row(defs, s.drop_last(), x).push(s.last())
    }
}

/// Stable insertion sort of row positions under the default order.
pub open spec fn spec_sort_rows(defs: Seq<DefModel>, s: Seq<usize>) -> Seq<usize>
    decreases s.len(),
{
    if s.len() == 0 {
        Seq::empty()
    } else {
        spec_insert_row(defs, spec_sort_rows(defs, s.drop_last()), s.last())
    }
}

/// The default row listing: every position, selected first, then by code.
pub open spec fn spec_default_indices(defs: Seq<DefModel>) -> Seq<usize> {
    spec_sort_rows(defs, Seq::new(defs.len(), |i: int| i as usize))
}

/// Mathematical image of a [`CoursesView`].
#[verifier::ext_equal]
pub ghost struct CoursesViewModel {
    pub hovered_row_idx: Option<usize>,
    pub selected_row_idx: Option<usize>,
    pub any_hovered: bool,
    pub search_query: Seq<char>,
    pub last_search_query: Seq<char>,
    pub filtered_indices: Seq<usize>,
}

/// State of the course-list view: hover and selection marks, the search
/// box contents, the last query actually applied, and the row order the
/// filter produced.
#[derive(Debug)]
pub struct CoursesView {
    pub hovered_row_idx: Option<usize>,
    pub selected_row_idx: Option<usize>,
    pub any_hovered: bool,
    pub search_query: String,
    pub last_search_query: String,
    pub filtered_indices: Vec<usize>,
}

impl View for CoursesView {
    type V = CoursesViewModel;

    open spec fn view(&self) -> CoursesViewModel {
        CoursesViewModel {
            hovered_row_idx: self.hovered_row_idx,
            selected_row_idx: self.selected_row_idx,
            any_hovered: self.any_hovered,
            search_query: self.search_query@,
            last_search_query: self.last_search_query@,
            filtered_indices: self.filtered_indices@,
        }
    }
}

impl CoursesView {
    /// A fresh view: nothing hovered or selected, an empty query, and no
    /// rows listed yet.
    pub fn new() -> (r: CoursesView)
        ensures
            r@.hovered_row_idx is None,
            r@.selected_row_idx is None,
            !r@.any_hovered,
            r@.search_query.len() == 0,
            r@.last_search_query.len() == 0,
            r@.filtered_indices.len() == 0,
    {
        CoursesView {
            hovered_row_idx: None,
            selected_row_idx: None,
            any_hovered: false,
            search_query: String::new(),
            last_search_query: String::new(),
            filtered_indices: Vec::new(),
        }
    }

    /// Rebuild `filtered_indices` for the current search box contents:
    /// if the lowercased query already matches the last one applied,
    /// nothing changes; an empty query restores the default listing;
    /// otherwise the rows whose code contains the query come first,
    /// followed by those whose name does.
    pub fn update_filter(&mut self, definitions: &Vec<CourseDefinition>)
        ensures
            ({
                let q = lower_of(old(self).search_query@);
                let defs = defs_view(definitions@);
                if q == old(self).last_search_query@ {
                    final(self)@ == old(self)@
                } else if q.len() == 0 {
                    final(self)@ == (CoursesViewModel {
                        hovered_row_idx: None,
                        selected_row_idx: None,
                        filtered_indices: spec_default_indices(defs),
                        last_search_query: q,
                        ..old(self)@
                    })
                } else {
                    final(self)@ == (CoursesViewModel {
                        hovered_row_idx: None,
                        selected_row_idx: None,
                        filtered_indices: spec_code_matches(defs, q) + spec_name_matches(defs, q),
                        last_search_query: q,
                        ..old(self)@
                    })
                }
            }),
    {
        let ghost defs = defs_view(definitions@);
        let query = lowercase(self.search_query.as_str());
        if query == self.last_search_query {
            return ;
        }
        self.hovered_row_idx = None;
        self.selected_row_idx = None;
        if query.as_str().is_empty() {
            self.create_default_indices(definitions);
            self.last_search_query = query;
            return ;
        }
        let qv = str_to_chars(query.as_str());
        let n = definitions.len();
        let mut code_indices: Vec<usize> = Vec::new();
        let mut name_indices: Vec<usize> = Vec::new();
        let mut i: usize = 0;
        proof {
            assert(defs.take(0) =~= Seq::<DefModel>::empty());
            assert(code_indices@ =~= Seq::<usize>::empty());
            assert(name_indices@ =~= Seq::<usize>::empty());
        }
        while i < n
            invariant
                0 <= i <= n,
                n == definitions@.len(),
                defs == defs_view(definitions@),
                qv@ == lower_of(old(self).search_query@),
                code_indices@ == spec_code_matches(defs.take(i as int), qv@),
                name_indices@ == spec_name_matches(defs.take(i as int), qv@),
            decreases n - i,
        {
            let ghost pre = defs.take(i as int);
            let ghost cur = defs.take(i as int + 1);
            proof {
                assert(cur.drop_last() =~= pre);
                assert(cur.last() == defs[i as int]);
                assert(defs[i as int] == definitions@[i as int]@);
            }
            let code_low = lowercase(definitions[i].code.as_str());
            let code_chars = str_to_chars(code_low.as_str());
            if contains_chars(&code_chars, &qv) {
                code_indices.push(i);
                proof {
                    assert(code_indices@ =~= spec_code_matches(pre, qv@) + seq![i]);
                }
            }
            let name_low = lowercase(definitions[i].name.as_str());
            let name_chars = str_to_chars(name_low.as_str());
            if contains_chars(&name_chars, &qv) {
                name_indices.push(i);
                proof {
                    assert(name_indices@ =~= spec_name_matches(pre, qv@) + seq![i]);
                }
            }
            proof {
                if !spec_contains(lower_of(defs[i as int].code), qv@) {
                    assert(code_indices@ =~= spec_code_matches(pre, qv@) + Seq::<usize>::empty());
                }
                if !spec_contains(lower_of(defs[i as int].name), qv@) {
                    assert(name_indices@ =~= spec_name_matches(pre, qv@) + Seq::<usize>::empty());
                }
            }
            i += 1;
        }
        proof {
            assert(defs.take(n as int) =~= defs);
        }
        let mut filtered = code_indices;
        let ghost cm = filtered@;
        let mut k: usize = 0;
        while k < name_indices.len()
            invariant
                0 <= k <= name_indices@.len(),
                filtered@ == cm + name_indices@.take(k as int),
            decreases name_indices@.len() - k,
        {
            let x = name_indices[k];
            filtered.push(x);
            proof {
                assert(filtered@ =~= cm + name_indices@.take(k as int + 1));
            }
            k += 1;
        }
        proof {
            assert(name_indices@.take(name_indices@.len() as int) =~= name_indices@);
        }
        self.filtered_indices = filtered;
        self.last_search_query = query;
    }

    /// The default listing: every definition, the selected ones first,
    /// then ascending by code; stable, so equal keys keep table order.
    pub fn create_default_indices(&mut self, definitions: &Vec<CourseDefinition>)
        ensures
            final(self)@ == (CoursesViewModel {
                filtered_indices: spec_default_indices(defs_view(definitions@)),
                ..old(self)@
            }),
    {
        let ghost defs = defs_view(definitions@);
        let n = definitions.len();
        let mut indices: Vec<usize> = Vec::new();
        let mut i: usize = 0;
        while i < n
            invariant
                0 <= i <= n,
                indices@.len() == i,
                forall|t: int| 0 <= t < i ==> indices@[t] == t as usize,
            decreases n - i,
        {
            indices.push(i);
            i += 1;
        }
        let ghost ident = indices@;
        proof {
            assert(ident =~= Seq::new(defs.len(), |t: int| t as usize));
        }
        let mut out: Vec<usize> = Vec::new();
        let mut j: usize = 0;
        proof {
            assert(ident.take(0) =~= Seq::<usize>::empty());
            assert(out@ =~= spec_sort_rows(defs, ident.take(0)));
        }
        while j < n
            invariant
                0 <= j <= n,
                n == definitions@.len(),
                defs == defs_view(definitions@),
                indices@ == ident,
                ident.len() == n,
                forall|t: int| 0 <= t < n ==> ident[t] == t as usize,
                out@ == spec_sort_rows(defs, ident.take(j as int)),
                forall|t: int| 0 <= t < out@.len() ==> out@[t] < n,
            decreases n - j,
        {
            let x = indices[j];
            proof {
                assert(ident[j as int] == j as usize);
            }
            Self::insert_row_sorted(definitions, &mut out, x);
            proof {
                assert(ident.take(j as int + 1).drop_last() =~= ident.take(j as int));
                assert(ident.take(j as int + 1).last() == ident[j as int]);
            }
            j += 1;
        }
        proof {
            assert(ident.take(n as int) =~= ident);
        }
        self.filtered_indices = out;
    }

    /// Place one row position into the already sorted listing.
    fn insert_row_sorted(definitions: &Vec<CourseDefinition>, out: &mut Vec<usize>, x: usize)
        requires
            x < definitions@.len(),
            forall|t: int| 0 <= t < old(out)@.len() ==> old(out)@[t] < definitions@.len(),
        ensures
            final(out)@ == spec_insert_row(defs_view(definitions@), old(out)@, x),
            forall|t: int| 0 <= t < final(out)@.len() ==> final(out)@[t] < definitions@.len(),
    {
        let ghost defs = defs_view(definitions@);
        let ghost s = out@;
        let mut p = out.len();
        while p > 0 && !Self::row_le(definitions, out[p - 1], x)
            invariant
                0 <= p <= out@.len(),
                s == out@,
                x < definitions@.len(),
                forall|t: int| 0 <= t < s.len() ==> s[t] < definitions@.len(),
                forall|t: int| p <= t < s.len() ==> !spec_row_le(defs_view(definitions@), s[t], x),
            decreases p,
        {
            p -= 1;
        }
        out.insert(p, x);
        proof {
            lemma_insert_row_at(defs, s, x, p as int);
            assert(out@ =~= s.take(p as int) + seq![x] + s.skip(p as int));
        }
    }

    /// Does row `a` come no later than row `b` in the default order?
    fn row_le(definitions: &Vec<CourseDefinition>, a: usize, b: usize) -> (r: bool)
        requires
            a < definitions@.len(),
            b < definitions@.len(),
        ensures
            r == spec_row_le(defs_view(definitions@), a, b),
    {
        let da = &definitions[a];
        let db = &definitions[b];
        proof {
            assert(defs_view(definitions@)[a as int] == definitions@[a as int]@);
            assert(defs_view(definitions@)[b as int] == definitions@[b as int]@);
        }
        if da.selected && !db.selected {
            true
        } else if !da.selected && db.selected {
            false
        } else {
            str_le(da.code.as_str(), db.code.as_str())
        }
    }

    /// Record what the pointer did to one row: a double click toggles
    /// the definition's selection; a click marks the row selected and
    /// clears the hover mark; otherwise hovering marks the row hovered.
    pub fn handle_row_events(
        double_clicked: bool,
        clicked: bool,
        hovered: bool,
        row_index: usize,
        definition_selected: &mut bool,
        hovered_row_idx: &mut Option<usize>,
        selected_row_idx: &mut Option<usize>,
        any_hovered: &mut bool,
    )
        ensures
            *final(definition_selected) == (if double_clicked {
                !*old(definition_selected)
            } else {
                *old(definition_selected)
            }),
            clicked ==> *final(selected_row_idx) == Some(row_index) && *final(hovered_row_idx)
                is None && *final(any_hovered) == *old(any_hovered),
            !clicked && hovered ==> *final(hovered_row_idx) == Some(row_index)
                && *final(any_hovered) && *final(selected_row_idx) == *old(selected_row_idx),
            !clicked && !hovered ==> *final(hovered_row_idx) == *old(hovered_row_idx)
                && *final(selected_row_idx) == *old(selected_row_idx)
                && *final(any_hovered) == *old(any_hovered),
    {
        if double_clicked {
            *definition_selected = !*definition_selected;
        }
        if clicked {
            *selected_row_idx = Some(row_index);
            *hovered_row_idx = None;
        } else if hovered {
            *hovered_row_idx = Some(row_index);
            *any_hovered = true;
        }
    }
}

proof fn lemma_insert_row_at(defs: Seq<DefModel>, s: Seq<usize>, x: usize, p: int)
    requires
        0 <= p <= s.len(),
        forall|i: int| p <= i < s.len() ==> !spec_row_le(defs, #[trigger] s[i], x),
        p > 0 ==> spec_row_le(defs, s[p - 1], x),
    ensures
        spec_insert_row(defs, s, x) == s.take(p) + seq![x] + s.skip(p),
    decreases s.len(),
{
    if s.len() == 0 {
        assert(s.take(0) + seq![x] + s.skip(0) =~= seq![x]);
    } else if spec_row_le(defs, s.last(), x) {
        assert(p == s.len());
        assert(s.take(p) + seq![x] + s.skip(p) =~= s.push(x));
    } else {
        let s0 = s.drop_last();
        assert(forall|i: int| 0 <= i < s0.len() ==> s0[i] == s[i]);
        lemma_insert_row_at(defs, s0, x, p);
        assert(s0.take(p) =~= s.take(p));
        assert((s0.take(p) + seq![x] + s0.skip(p)).push(s.last()) =~= s.take(p) + seq![x]
            + s.skip(p));
    }
}

} // verus!
