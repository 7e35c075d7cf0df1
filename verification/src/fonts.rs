//! The font menu: the installed family names sorted case-insensitively, each
//! listed once, and the family picked from a menu position.
use vstd::prelude::*;
use crate::text_lines::{chars_of, views_of};

verus! {

broadcast use vstd::seq_lib::group_to_multiset_ensures;

/// What `str::to_lowercase` makes of a string (Unicode lowercase mapping).
pub uninterp spec fn lowercase(s: Seq<char>) -> Seq<char>;

/// Calls `str::to_lowercase`, std's full Unicode lowercase mapping.  Its result
/// depends on the string alone; the contract only names it, as `lowercase`.
#[verifier::external_body]
fn to_lowercase(s: &str) -> (r: String)
    ensures
        r@ == lowercase(s@),
{
    s.to_lowercase()
}

/// Lexicographic order by code point (the order `String` compares in: UTF-8
/// keeps code point order byte by byte).
pub open spec fn lex_le(a: Seq<char>, b: Seq<char>) -> bool
    decreases a.len(),
{
    if a.len() == 0 {
        true
    } else if b.len() == 0 {
        false
    } else if (a[0] as int) < (b[0] as int) {
        true
    } else if a[0] == b[0] {
        lex_le(a.drop_first(), b.drop_first())
    } else {
        false
    }
}

/// Family names compare by their lowercase forms.
pub open spec fn key_le(a: Seq<char>, b: Seq<char>) -> bool {
    lex_le(lowercase(a), lowercase(b))
}

/// Puts `x` into `sorted` after every name whose key is not above its own.
pub open spec fn insert_by_key(sorted: Seq<Seq<char>>, x: Seq<char>) -> Seq<Seq<char>>
    decreases sorted.len(),
{
    if sorted.len() == 0 || key_le(sorted.last(), x) {
        sorted.push(x)
    } else {
        insert_by_key(sorted.drop_last(), x).push(sorted.last())
    }
}

/// Stable sort by key: names with equal keys keep their order.
pub open spec fn sort_by_key(s: Seq<Seq<char>>) -> Seq<Seq<char>>
    decreases s.len(),
{
    if s.len() == 0 {
        s
    } else {
        insert_by_key(sort_by_key(s.drop_last()), s.last())
    }
}

/// Keeps the first occurrence of each name and drops every later repeat.
pub open spec fn unique(s: Seq<Seq<char>>) -> Seq<Seq<char>>
    decreases s.len(),
{
    if s.len() == 0 {
        s
    } else if unique(s.drop_last()).contains(s.last()) {
        unique(s.drop_last())
    } else {
        unique(s.drop_last()).push(s.last())
    }
}

/// The menu built from installed family names.
pub open spec fn family_menu(names: Seq<Seq<char>>) -> Seq<Seq<char>> {
    unique(sort_by_key(names))
}

/// Names in nondecreasing key order.
pub open spec fn sorted_by_key(s: Seq<Seq<char>>) -> bool {
    forall|i: int, j: int| 0 <= i < j < s.len() ==> key_le(#[trigger] s[i], #[trigger] s[j])
}

proof fn lemma_lex_reflexive(a: Seq<char>)
    ensures
        lex_le(a, a),
    decreases a.len(),
{
    if a.len() > 0 {
        lemma_lex_reflexive(a.drop_first());
    }
}

proof fn lemma_lex_total(a: Seq<char>, b: Seq<char>)
    ensures
        lex_le(a, b) || lex_le(b, a),
    decreases a.len(),
{
    if a.len() > 0 && b.len() > 0 {
        if a[0] == b[0] {
            lemma_lex_total(a.drop_first(), b.drop_first());
        } else {
            assert((a[0] as int) != (b[0] as int));
        }
    }
}

proof fn lemma_lex_transitive(a: Seq<char>, b: Seq<char>, c: Seq<char>)
    requires
        lex_le(a, b),
        lex_le(b, c),
    ensures
        lex_le(a, c),
    decreases a.len(),
{
    if a.len() > 0 && b.len() > 0 && c.len() > 0 && a[0] == b[0] && b[0] == c[0] {
        lemma_lex_transitive(a.drop_first(), b.drop_first(), c.drop_first());
    }
}

proof fn lemma_lex_antisymmetric(a: Seq<char>, b: Seq<char>)
    requires
        lex_le(a, b),
        lex_le(b, a),
    ensures
        a == b,
    decreases a.len(),
{
    if a.len() > 0 && b.len() > 0 {
        lemma_lex_antisymmetric(a.drop_first(), b.drop_first());
        assert(a == seq![a[0]] + a.drop_first());
        assert(b == seq![b[0]] + b.drop_first());
    }
}

/// Inserting where the names after `j` all have keys above `x`, and the name
/// before `j` (if any) does not, is what `insert_by_key` does.
proof fn lemma_insert_at(s: Seq<Seq<char>>, x: Seq<char>, j: int)
    requires
        0 <= j <= s.len(),
        forall|k: int| j <= k < s.len() ==> !key_le(#[trigger] s[k], x),
        j == 0 || key_le(s[j - 1], x),
    ensures
        insert_by_key(s, x) == s.insert(j, x),
    decreases s.len(),
{
    if j == s.len() {
        assert(s.push(x) == s.insert(j, x));
    } else {
        assert(!key_le(s[s.len() - 1], x));
        let d = s.drop_last();
        assert forall|k: int| j <= k < d.len() implies !key_le(#[trigger] d[k], x) by {
            assert(d[k] == s[k]);
        }
        if j > 0 {
            assert(d[j - 1] == s[j - 1]);
        }
        lemma_insert_at(d, x, j);
        assert(d.insert(j, x).push(s.last()) == s.insert(j, x));
    }
}

proof fn lemma_insert_multiset(s: Seq<Seq<char>>, x: Seq<char>)
    ensures
        insert_by_key(s, x).to_multiset() == s.to_multiset().insert(x),
    decreases s.len(),
{
    if s.len() > 0 && !key_le(s.last(), x) {
        let d = s.drop_last();
        lemma_insert_multiset(d, x);
        assert(s == d.push(s.last()));
    }
}

proof fn lemma_insert_sorted(s: Seq<Seq<char>>, x: Seq<char>)
    requires
        sorted_by_key(s),
    ensures
        sorted_by_key(insert_by_key(s, x)),
        insert_by_key(s, x).len() == s.len() + 1,
        forall|y: Seq<char>| #[trigger] insert_by_key(s, x).contains(y) <==> (s.contains(y) || y == x),
    decreases s.len(),
{
    let r = insert_by_key(s, x);
    if s.len() == 0 {
        assert forall|y: Seq<char>| #[trigger] r.contains(y) <==> (s.contains(y) || y == x) by {
            if r.contains(y) {
                assert(r[0] == x);
            }
            if y == x {
                assert(r[0] == x);
            }
        }
    } else if key_le(s.last(), x) {
        assert forall|i: int, j: int| 0 <= i < j < r.len() implies key_le(#[trigger] r[i], #[trigger] r[j]) by {
            if j == r.len() - 1 {
                if i < s.len() - 1 {
                    lemma_lex_transitive(lowercase(s[i]), lowercase(s.last()), lowercase(x));
                }
            }
        }
        assert forall|y: Seq<char>| #[trigger] r.contains(y) <==> (s.contains(y) || y == x) by {
            if r.contains(y) {
                let k = choose|k: int| 0 <= k < r.len() && r[k] == y;
                if k < s.len() {
                    assert(s[k] == y);
                }
            }
            if s.contains(y) {
                let k = choose|k: int| 0 <= k < s.len() && s[k] == y;
                assert(r[k] == y);
            }
            if y == x {
                assert(r[s.len() as int] == x);
            }
        }
    } else {
        let d = s.drop_last();
        let l = s.last();
        assert(sorted_by_key(d)) by {
            assert forall|i: int, j: int| 0 <= i < j < d.len() implies key_le(#[trigger] d[i], #[trigger] d[j]) by {
                assert(d[i] == s[i] && d[j] == s[j]);
            }
        }
        lemma_insert_sorted(d, x);
        let m = insert_by_key(d, x);
        assert(r == m.push(l));
        lemma_lex_total(lowercase(l), lowercase(x));
        assert forall|i: int| 0 <= i < m.len() implies key_le(#[trigger] m[i], l) by {
            assert(m.contains(m[i]));
            if m[i] == x {
            } else {
                assert(d.contains(m[i]));
                let k = choose|k: int| 0 <= k < d.len() && d[k] == m[i];
                assert(s[k] == d[k]);
                assert(s[s.len() - 1] == l);
            }
        }
        assert forall|i: int, j: int| 0 <= i < j < r.len() implies key_le(#[trigger] r[i], #[trigger] r[j]) by {
            if j == r.len() - 1 {
                assert(r[i] == m[i]);
            } else {
                assert(r[i] == m[i] && r[j] == m[j]);
            }
        }
        assert forall|y: Seq<char>| #[trigger] r.contains(y) <==> (s.contains(y) || y == x) by {
            if r.contains(y) {
                let k = choose|k: int| 0 <= k < r.len() && r[k] == y;
                if k < m.len() {
                    assert(m[k] == y);
                    assert(m.contains(y));
                    if d.contains(y) {
                        let q = choose|q: int| 0 <= q < d.len() && d[q] == y;
                        assert(s[q] == y);
                    }
                } else {
                    assert(s[s.len() - 1] == y);
                }
            }
            if s.contains(y) {
                let k = choose|k: int| 0 <= k < s.len() && s[k] == y;
                if k < s.len() - 1 {
                    assert(d[k] == y);
                    assert(d.contains(y));
                    assert(m.contains(y));
                    let q = choose|q: int| 0 <= q < m.len() && m[q] == y;
                    assert(r[q] == y);
                } else {
                    assert(r[r.len() - 1] == y);
                }
            }
            if y == x {
                assert(m.contains(x));
                let q = choose|q: int| 0 <= q < m.len() && m[q] == x;
                assert(r[q] == x);
            }
        }
    }
}

/// The sorted menu lists every installed name as often as it was installed,
/// nothing else, and in case-insensitive order.
pub proof fn law_sort_by_key(s: Seq<Seq<char>>)
    ensures
        sorted_by_key(sort_by_key(s)),
        sort_by_key(s).to_multiset() == s.to_multiset(),
        sort_by_key(s).len() == s.len(),
    decreases s.len(),
{
    if s.len() > 0 {
        let d = s.drop_last();
        law_sort_by_key(d);
        lemma_insert_sorted(sort_by_key(d), s.last());
        lemma_insert_multiset(sort_by_key(d), s.last());
        assert(s == d.push(s.last()));
    }
}

proof fn lemma_unique_basic(s: Seq<Seq<char>>)
    ensures
        unique(s).len() <= s.len(),
        forall|y: Seq<char>| #[trigger] unique(s).contains(y) <==> s.contains(y),
        unique(s).no_duplicates(),
    decreases s.len(),
{
    if s.len() > 0 {
        let d = s.drop_last();
        let x = s.last();
        lemma_unique_basic(d);
        let rd = unique(d);
        let r = unique(s);
        assert forall|y: Seq<char>| #[trigger] r.contains(y) <==> s.contains(y) by {
            if r.contains(y) {
                let k = choose|k: int| 0 <= k < r.len() && r[k] == y;
                if k < rd.len() {
                    assert(rd[k] == y);
                    assert(rd.contains(y));
                    let q = choose|q: int| 0 <= q < d.len() && d[q] == y;
                    assert(s[q] == y);
                } else {
                    assert(s[s.len() - 1] == y);
                }
            }
            if s.contains(y) {
                let k = choose|k: int| 0 <= k < s.len() && s[k] == y;
                if k < s.len() - 1 {
                    assert(d[k] == y);
                    assert(d.contains(y));
                    assert(rd.contains(y));
                    let q = choose|q: int| 0 <= q < rd.len() && rd[q] == y;
                    if !rd.contains(x) {
                        assert(r[q] == y);
                    }
                } else if !rd.contains(x) {
                    assert(r[r.len() - 1] == y);
                }
            }
        }
        if !rd.contains(x) {
            assert forall|i: int, j: int| 0 <= i < r.len() && 0 <= j < r.len() && i != j implies r[i] != r[j] by {
                if i == r.len() - 1 && j < rd.len() {
                    assert(r[j] == rd[j]);
                } else if j == r.len() - 1 && i < rd.len() {
                    assert(r[i] == rd[i]);
                } else {
                    assert(r[i] == rd[i] && r[j] == rd[j]);
                }
            }
        }
    }
}

/// The menu lists every installed name exactly once, and nothing else.
pub proof fn law_unique(s: Seq<Seq<char>>)
    ensures
        unique(s).no_duplicates(),
        forall|y: Seq<char>| #[trigger] unique(s).contains(y) <==> s.contains(y),
        unique(s).len() <= s.len(),
{
    lemma_unique_basic(s);
}

proof fn lemma_unique_sorted(s: Seq<Seq<char>>)
    requires
        sorted_by_key(s),
    ensures
        sorted_by_key(unique(s)),
    decreases s.len(),
{
    if s.len() > 0 {
        let d = s.drop_last();
        assert(sorted_by_key(d)) by {
            assert forall|i: int, j: int| 0 <= i < j < d.len() implies key_le(#[trigger] d[i], #[trigger] d[j]) by {
                assert(d[i] == s[i] && d[j] == s[j]);
            }
        }
        lemma_unique_sorted(d);
        lemma_unique_basic(d);
        let rd = unique(d);
        if !rd.contains(s.last()) {
            let r = rd.push(s.last());
            assert forall|i: int, j: int| 0 <= i < j < r.len() implies key_le(#[trigger] r[i], #[trigger] r[j]) by {
                if j == r.len() - 1 {
                    assert(r[i] == rd[i]);
                    assert(rd.contains(rd[i]));
                    let k = choose|k: int| 0 <= k < d.len() && d[k] == rd[i];
                    assert(s[k] == d[k]);
                    assert(s[s.len() - 1] == s.last());
                } else {
                    assert(r[i] == rd[i] && r[j] == rd[j]);
                }
            }
        }
    }
}

/// The menu is in case-insensitive order, lists each installed name exactly
/// once, and lists nothing else.
pub proof fn law_family_menu(names: Seq<Seq<char>>)
    ensures
        sorted_by_key(family_menu(names)),
        family_menu(names).no_duplicates(),
        forall|y: Seq<char>| #[trigger] family_menu(names).contains(y) <==> names.contains(y),
{
    law_sort_by_key(names);
    lemma_unique_sorted(sort_by_key(names));
    lemma_unique_basic(sort_by_key(names));
    assert forall|y: Seq<char>| #[trigger] family_menu(names).contains(y) <==> names.contains(y) by {
        let s = sort_by_key(names);
        assert(s.to_multiset().count(y) == names.to_multiset().count(y));
    }
}

/// Any two names are ordered one way or the other, and two names tie (each
/// at or before the other) exactly when their lowercase forms are equal.
pub proof fn law_key_ties(a: Seq<char>, b: Seq<char>)
    ensures
        (key_le(a, b) && key_le(b, a)) <==> lowercase(a) == lowercase(b),
        key_le(a, b) || key_le(b, a),
{
    lemma_lex_total(lowercase(a), lowercase(b));
    if key_le(a, b) && key_le(b, a) {
        lemma_lex_antisymmetric(lowercase(a), lowercase(b));
    }
    if lowercase(a) == lowercase(b) {
        lemma_lex_reflexive(lowercase(a));
    }
}

/// Whether `a` comes at or before `b` in code point order.
fn chars_le(a: &Vec<char>, b: &Vec<char>) -> (r: bool)
    ensures
        r == lex_le(a@, b@),
{
    let mut i: usize = 0;
    assert(a@.skip(0) == a@ && b@.skip(0) == b@);
    while i < a.len() && i < b.len()
        invariant
            i <= a@.len(),
            i <= b@.len(),
            lex_le(a@, b@) == lex_le(a@.skip(i as int), b@.skip(i as int)),
        decreases a@.len() - i,
    {
        let ghost sa = a@.skip(i as int);
        let ghost sb = b@.skip(i as int);
        assert(sa[0] == a@[i as int] && sb[0] == b@[i as int]);
        if a[i] != b[i] {
            return a[i] < b[i];
        }
        assert(sa.drop_first() == a@.skip(i + 1));
        assert(sb.drop_first() == b@.skip(i + 1));
        i = i + 1;
    }
    i == a.len()
}

/// A family name with its lowercase form.
struct Family {
    key: Vec<char>,
    name: String,
}

spec fn family_names(v: Seq<Family>) -> Seq<Seq<char>> {
    v.map_values(|f: Family| f.name@)
}

spec fn keys_ok(v: Seq<Family>) -> bool {
    forall|i: int| 0 <= i < v.len() ==> (#[trigger] v[i]).key@ == lowercase(v[i].name@)
}

/// The font menu for the installed family names: sorted case-insensitively
/// (stable, so names that differ only in case keep their order), each name
/// listed once.
pub fn font_family_list(names: Vec<String>) -> (menu: Vec<String>)
    ensures
        views_of(menu@) == family_menu(views_of(names@)),
        sorted_by_key(views_of(menu@)),
        views_of(menu@).no_duplicates(),
        forall|y: Seq<char>| #[trigger] views_of(menu@).contains(y) <==> views_of(names@).contains(y),
{
    let ghost input = views_of(names@);
    let mut sorted: Vec<Family> = Vec::new();
    let rest = names;
    let ghost all = rest@;
    let mut i: usize = 0;
    let n = rest.len();
    while i < n
        invariant
            n == all.len(),
            rest@ == all,
            i <= n,
            input == views_of(all),
            family_names(sorted@) == sort_by_key(input.take(i as int)),
            keys_ok(sorted@),
        decreases n - i,
    {
        let name = rest[i].clone();
        let key = chars_of(to_lowercase(name.as_str()).as_str());
        let mut j = sorted.len();
        while j > 0 && !chars_le(&sorted[j - 1].key, &key)
            invariant
                j <= sorted@.len(),
                keys_ok(sorted@),
                key@ == lowercase(name@),
                forall|k: int| j <= k < sorted@.len() ==> !key_le(#[trigger] family_names(sorted@)[k], name@),
            decreases j,
        {
            j = j - 1;
        }
        let ghost before = family_names(sorted@);
        proof {
            assert forall|k: int| j <= k < before.len() implies !key_le(#[trigger] before[k], name@) by {}
            if j > 0 {
                assert(before[j - 1] == sorted@[j - 1].name@);
            }
            lemma_insert_at(before, name@, j as int);
            assert(input.take(i + 1).drop_last() == input.take(i as int));
            assert(input.take(i + 1).last() == name@);
        }
        sorted.insert(j, Family { key, name });
        assert(family_names(sorted@) == before.insert(j as int, name@));
        i = i + 1;
    }
    assert(input.take(n as int) == input);
    let mut menu: Vec<String> = Vec::new();
    let mut k: usize = 0;
    let ghost s = family_names(sorted@);
    while k < sorted.len()
        invariant
            k <= sorted@.len(),
            s == family_names(sorted@),
            views_of(menu@) == unique(s.take(k as int)),
        decreases sorted@.len() - k,
    {
        proof {
            assert(s.take(k + 1).drop_last() == s.take(k as int));
            assert(s.take(k + 1).last() == sorted@[k as int].name@);
        }
        if !contains_name(&menu, &sorted[k].name) {
            menu.push(sorted[k].name.clone());
            assert(views_of(menu@) == views_of(menu@).drop_last().push(s[k as int]));
        }
        k = k + 1;
    }
    assert(s.take(sorted@.len() as int) == s);
    proof {
        law_family_menu(input);
    }
    menu
}

/// Whether `menu` already lists `name`.
fn contains_name(menu: &Vec<String>, name: &String) -> (r: bool)
    ensures
        r == views_of(menu@).contains(name@),
{
    let mut i: usize = 0;
    while i < menu.len()
        invariant
            i <= menu@.len(),
            forall|j: int| 0 <= j < i ==> views_of(menu@)[j] != name@,
        decreases menu@.len() - i,
    {
        if menu[i] == *name {
            assert(views_of(menu@)[i as int] == name@);
            return true;
        }
        i = i + 1;
    }
    false
}

/// The family at a menu position; positions past the end give the last family.
pub fn font_family_at(menu: &Vec<String>, index: usize) -> (name: String)
    requires
        menu@.len() > 0,
    ensures
        name@ == menu@[if index < menu@.len() { index as int } else { menu@.len() - 1 }]@,
{
    let last = menu.len() - 1;
    let i = if index < last { index } else { last };
    menu[i].clone()
}

/// The family to draw with: the one at the menu position, or Helvetica when
/// no font is installed.
pub fn font_family_or_default(menu: &Vec<String>, index: usize) -> (name: String)
    ensures
        menu@.len() == 0 ==> name@ == "Helvetica"@,
        menu@.len() > 0 ==> name@ == menu@[if index < menu@.len() { index as int } else { menu@.len() - 1 }]@,
{
    if menu.len() == 0 {
        "Helvetica".to_owned()
    } else {
        font_family_at(menu, index)
    }
}

/// Code point order is lexicographic: a text comes before every longer text it
/// starts, and at the first difference the smaller code point comes first.
pub proof fn law_lex_order(a: Seq<char>, t: Seq<char>, b: Seq<char>, k: int)
    ensures
        lex_le(Seq::<char>::empty(), b),
        lex_le(a, a + t),
        t.len() > 0 ==> !lex_le(a + t, a),
        (0 <= k < a.len() && k < b.len() && a.take(k) == b.take(k) && (a[k] as int) < (b[k] as int))
            ==> lex_le(a, b) && !lex_le(b, a),
    decreases a.len(),
{
    if a.len() > 0 {
        law_lex_order(a.drop_first(), t, b.drop_first(), k - 1);
        assert((a + t).drop_first() == a.drop_first() + t);
        assert((a + t)[0] == a[0]);
        if 0 <= k < a.len() && k < b.len() && a.take(k) == b.take(k) && (a[k] as int) < (b[k] as int) {
            if k > 0 {
                assert(a[0] == a.take(k)[0] && b[0] == b.take(k)[0]);
                assert(a.drop_first().take(k - 1) == b.drop_first().take(k - 1)) by {
                    assert forall|j: int| 0 <= j < k - 1 implies #[trigger] a.drop_first().take(k - 1)[j] == b.drop_first().take(k - 1)[j] by {
                        assert(a.take(k)[j + 1] == b.take(k)[j + 1]);
                    }
                }
                assert(a.drop_first()[k - 1] == a[k] && b.drop_first()[k - 1] == b[k]);
            }
        }
    } else {
        assert(a + t == t);
    }
}

/// Names are ordered by their lowercase forms: a name whose lowercase form
/// starts a longer one comes first, and otherwise the first differing
/// lowercase character decides.
pub proof fn law_key_order(a: Seq<char>, b: Seq<char>, k: int)
    ensures
        (lowercase(a).len() < lowercase(b).len() && lowercase(a) == lowercase(b).take(lowercase(a).len() as int))
            ==> key_le(a, b) && !key_le(b, a),
        (0 <= k < lowercase(a).len() && k < lowercase(b).len() && lowercase(a).take(k) == lowercase(b).take(k)
            && (lowercase(a)[k] as int) < (lowercase(b)[k] as int)) ==> key_le(a, b) && !key_le(b, a),
{
    let la = lowercase(a);
    let lb = lowercase(b);
    if la.len() < lb.len() && la == lb.take(la.len() as int) {
        let t = lb.skip(la.len() as int);
        assert(la + t == lb);
        law_lex_order(la, t, lb, k);
    }
    law_lex_order(la, Seq::<char>::empty(), lb, k);
}

/// The names of `s` whose lowercase form is `k`, in their order in `s`.
pub open spec fn with_key(s: Seq<Seq<char>>, k: Seq<char>) -> Seq<Seq<char>>
    decreases s.len(),
{
    if s.len() == 0 {
        s
    } else if lowercase(s.last()) == k {
        with_key(s.drop_last(), k).push(s.last())
    } else {
        with_key(s.drop_last(), k)
    }
}

/// Where `x` first occurs in `s` (meaningful when `s` contains `x`).
pub open spec fn first_index(s: Seq<Seq<char>>, x: Seq<char>) -> int
    decreases s.len(),
{
    if s.len() == 0 {
        0
    } else if s.drop_last().contains(x) {
        first_index(s.drop_last(), x)
    } else {
        s.len() - 1
    }
}

proof fn lemma_insert_with_key(s: Seq<Seq<char>>, x: Seq<char>, k: Seq<char>)
    ensures
        with_key(insert_by_key(s, x), k) == if lowercase(x) == k {
            with_key(s, k).push(x)
        } else {
            with_key(s, k)
        },
    decreases s.len(),
{
    if s.len() == 0 || key_le(s.last(), x) {
        assert(s.push(x).drop_last() == s);
    } else {
        let d = s.drop_last();
        let l = s.last();
        lemma_insert_with_key(d, x, k);
        let m = insert_by_key(d, x);
        assert(m.push(l).drop_last() == m);
        assert(s == d.push(l));
        if lowercase(l) == lowercase(x) {
            lemma_lex_reflexive(lowercase(x));
        }
    }
}

/// The sort is stable: names with the same lowercase form keep the order they
/// were installed in.
pub proof fn law_sort_is_stable(s: Seq<Seq<char>>, k: Seq<char>)
    ensures
        with_key(sort_by_key(s), k) == with_key(s, k),
    decreases s.len(),
{
    if s.len() > 0 {
        let d = s.drop_last();
        law_sort_is_stable(d, k);
        lemma_insert_with_key(sort_by_key(d), s.last(), k);
        assert(s == d.push(s.last()));
    }
}

proof fn lemma_first_index(s: Seq<Seq<char>>, x: Seq<char>)
    requires
        s.contains(x),
    ensures
        0 <= first_index(s, x) < s.len(),
        s[first_index(s, x)] == x,
        forall|j: int| 0 <= j < first_index(s, x) ==> s[j] != x,
    decreases s.len(),
{
    let d = s.drop_last();
    if d.contains(x) {
        lemma_first_index(d, x);
        let f = first_index(d, x);
        assert(s[f] == d[f]);
        assert forall|j: int| 0 <= j < f implies s[j] != x by {
            assert(s[j] == d[j]);
        }
    } else {
        assert forall|j: int| 0 <= j < s.len() - 1 implies s[j] != x by {
            assert(s[j] == d[j]);
        }
        let k = choose|k: int| 0 <= k < s.len() && s[k] == x;
        if k < s.len() - 1 {
            assert(d[k] == x);
        }
    }
}

/// Each name is listed once, in the order of its first occurrence: of two
/// menu entries, the one that occurred first comes first.
pub proof fn law_unique_order(s: Seq<Seq<char>>, i: int, j: int)
    requires
        0 <= i < j < unique(s).len(),
    ensures
        s.contains(unique(s)[i]),
        s.contains(unique(s)[j]),
        first_index(s, unique(s)[i]) < first_index(s, unique(s)[j]),
    decreases s.len(),
{
    lemma_unique_basic(s);
    assert(unique(s).contains(unique(s)[i]));
    assert(unique(s).contains(unique(s)[j]));
    let d = s.drop_last();
    let l = s.last();
    let rd = unique(d);
    lemma_unique_basic(d);
    if rd.contains(l) {
        law_unique_order(d, i, j);
    } else if j < rd.len() {
        law_unique_order(d, i, j);
        assert(unique(s)[i] == rd[i] && unique(s)[j] == rd[j]);
    } else {
        assert(unique(s)[i] == rd[i]);
        assert(rd.contains(rd[i]));
        assert(d.contains(rd[i]));
        lemma_first_index(d, rd[i]);
        assert(unique(s)[j] == l);
        assert(!d.contains(l));
    }
}

} // verus!
