//! Catalog metadata and the chain merge rule: scalar fields are
//! first-write-wins, `tags` and `attributes` are unions, and the
//! approval flag is sticky.

use vstd::prelude::*;

verus! {

/// Metadata that a catalog provider attaches to a tool.
///
/// `sample_arguments` holds the JSON text of a representative invocation;
/// `attributes` holds key/value pairs, at most one pair per key.
#[derive(Debug, PartialEq, Eq)]
pub struct CatalogMetadata {
    pub tags: Vec<String>,
    pub owner: Option<String>,
    pub doc_url: Option<String>,
    pub sample_arguments: Option<String>,
    pub trust_required: Option<String>,
    pub requires_approval: bool,
    pub maturity: Option<String>,
    pub attributes: Vec<(String, String)>,
}

/// The mathematical value of a `CatalogMetadata`.
#[verifier::ext_equal]
pub struct CatalogMetadataView {
    pub tags: Seq<Seq<char>>,
    pub owner: Option<Seq<char>>,
    pub doc_url: Option<Seq<char>>,
    pub sample_arguments: Option<Seq<char>>,
    pub trust_required: Option<Seq<char>>,
    pub requires_approval: bool,
    pub maturity: Option<Seq<char>>,
    pub attributes: Seq<(Seq<char>, Seq<char>)>,
}

impl View for CatalogMetadata {
    type V = CatalogMetadataView;

    open spec fn view(&self) -> CatalogMetadataView {
        CatalogMetadataView {
            tags: self.tags.deep_view(),
            owner: self.owner.deep_view(),
            doc_url: self.doc_url.deep_view(),
            sample_arguments: self.sample_arguments.deep_view(),
            trust_required: self.trust_required.deep_view(),
            requires_approval: self.requires_approval,
            maturity: self.maturity.deep_view(),
            attributes: self.attributes.deep_view(),
        }
    }
}

/// The earlier value when it is set, else the later one.
pub open spec fn first_set<A>(earlier: Option<A>, later: Option<A>) -> Option<A> {
    if earlier is Some {
        earlier
    } else {
        later
    }
}

/// `acc` followed by each element of `more` that is not yet present,
/// in the order of `more`.
pub open spec fn seq_union<A>(acc: Seq<A>, more: Seq<A>) -> Seq<A>
    decreases more.len(),
{
    if more.len() == 0 {
        acc
    } else {
        let prev = seq_union(acc, more.drop_last());
        if prev.contains(more.last()) {
            prev
        } else {
            prev.push(more.last())
        }
    }
}

/// Whether some pair of `s` has key `k`.
pub open spec fn has_key<K, V>(s: Seq<(K, V)>, k: K) -> bool {
    exists|i: int| 0 <= i < s.len() && #[trigger] s[i].0 == k
}

/// `acc` followed by each pair of `more` whose key is not yet present,
/// in the order of `more`: on a shared key the pair of `acc` wins.
pub open spec fn keyed_union<K, V>(acc: Seq<(K, V)>, more: Seq<(K, V)>) -> Seq<(K, V)>
    decreases more.len(),
{
    if more.len() == 0 {
        acc
    } else {
        let prev = keyed_union(acc, more.drop_last());
        if has_key(prev, more.last().0) {
            prev
        } else {
            prev.push(more.last())
        }
    }
}

impl CatalogMetadataView {
    /// Metadata with every field unset.
    pub open spec fn empty() -> CatalogMetadataView {
        CatalogMetadataView {
            tags: Seq::empty(),
            owner: None,
            doc_url: None,
            sample_arguments: None,
            trust_required: None,
            requires_approval: false,
            maturity: None,
            attributes: Seq::empty(),
        }
    }

    /// Whether no field is set.
    pub open spec fn is_empty(self) -> bool {
        &&& self.tags.len() == 0
        &&& self.owner is None
        &&& self.doc_url is None
        &&& self.sample_arguments is None
        &&& self.trust_required is None
        &&& !self.requires_approval
        &&& self.maturity is None
        &&& self.attributes.len() == 0
    }

    /// `self` with `later` merged into it: what `self` already holds wins.
    pub open spec fn merged(self, later: CatalogMetadataView) -> CatalogMetadataView {
        CatalogMetadataView {
            tags: seq_union(self.tags, later.tags),
            owner: first_set(self.owner, later.owner),
            doc_url: first_set(self.doc_url, later.doc_url),
            sample_arguments: first_set(self.sample_arguments, later.sample_arguments),
            trust_required: first_set(self.trust_required, later.trust_required),
            requires_approval: self.requires_approval || later.requires_approval,
            maturity: first_set(self.maturity, later.maturity),
            attributes: keyed_union(self.attributes, later.attributes),
        }
    }
}

/// A copy of an optional string.
pub fn clone_opt_string(o: &Option<String>) -> (r: Option<String>)
    ensures
        r.deep_view() == o.deep_view(),
{
    match o {
        Some(s) => Some(s.clone()),
        None => None,
    }
}

/// A copy of a list of strings.
pub fn clone_strings(v: &Vec<String>) -> (r: Vec<String>)
    ensures
        r.deep_view() == v.deep_view(),
{
    let mut r: Vec<String> = Vec::new();
    let mut i: usize = 0;
    while i < v.len()
        invariant
            i <= v.len(),
            r.deep_view() =~= v.deep_view().take(i as int),
        decreases v.len() - i,
    {
        let ghost before = r.deep_view();
        let c = v[i].clone();
        r.push(c);
        assert(r.deep_view() =~= before.push(v.deep_view()[i as int]));
        i = i + 1;
        assert(r.deep_view() =~= v.deep_view().take(i as int));
    }
    assert(v.deep_view().take(v.len() as int) =~= v.deep_view());
    r
}

/// A copy of a list of string pairs.
pub fn clone_pairs(v: &Vec<(String, String)>) -> (r: Vec<(String, String)>)
    ensures
        r.deep_view() == v.deep_view(),
{
    let mut r: Vec<(String, String)> = Vec::new();
    let mut i: usize = 0;
    while i < v.len()
        invariant
            i <= v.len(),
            r.deep_view() =~= v.deep_view().take(i as int),
        decreases v.len() - i,
    {
        let ghost before = r.deep_view();
        let p = (v[i].0.clone(), v[i].1.clone());
        r.push(p);
        assert(r.deep_view() =~= before.push(v.deep_view()[i as int]));
        i = i + 1;
        assert(r.deep_view() =~= v.deep_view().take(i as int));
    }
    assert(v.deep_view().take(v.len() as int) =~= v.deep_view());
    r
}

/// Whether `v` holds a string equal to `s`.
fn contains_string(v: &Vec<String>, s: &String) -> (res: bool)
    ensures
        res == v.deep_view().contains(s@),
{
    let mut i: usize = 0;
    while i < v.len()
        invariant
            i <= v.len(),
            forall|j: int| 0 <= j < i ==> v.deep_view()[j] != s@,
        decreases v.len() - i,
    {
        if v[i] == *s {
            assert(v.deep_view()[i as int] == s@);
            return true;
        }
        i = i + 1;
    }
    false
}

/// Whether some pair of `v` has key `k`.
fn contains_key(v: &Vec<(String, String)>, k: &String) -> (res: bool)
    ensures
        res == has_key(v.deep_view(), k@),
{
    let mut i: usize = 0;
    while i < v.len()
        invariant
            i <= v.len(),
            forall|j: int| 0 <= j < i ==> v.deep_view()[j].0 != k@,
        decreases v.len() - i,
    {
        if v[i].0 == *k {
            assert(v.deep_view()[i as int].0 == k@);
            return true;
        }
        i = i + 1;
    }
    false
}

/// Appends to `acc` each string of `more` that it does not hold yet.
fn union_strings_into(acc: &mut Vec<String>, more: &Vec<String>)
    ensures
        final(acc).deep_view() == seq_union(old(acc).deep_view(), more.deep_view()),
{
    let ghost start = acc.deep_view();
    let mut i: usize = 0;
    assert(more.deep_view().take(0) =~= Seq::<Seq<char>>::empty());
    while i < more.len()
        invariant
            i <= more.len(),
            acc.deep_view() == seq_union(start, more.deep_view().take(i as int)),
        decreases more.len() - i,
    {
        let ghost taken = more.deep_view().take(i as int + 1);
        assert(taken.drop_last() =~= more.deep_view().take(i as int));
        assert(taken.last() == more[i as int]@);
        if !contains_string(acc, &more[i]) {
            let ghost before = acc.deep_view();
            acc.push(more[i].clone());
            assert(acc.deep_view() =~= before.push(more[i as int]@));
        }
        i = i + 1;
    }
    assert(more.deep_view().take(more.len() as int) =~= more.deep_view());
}

/// Appends to `acc` each pair of `more` whose key `acc` does not hold yet.
fn union_pairs_into(acc: &mut Vec<(String, String)>, more: &Vec<(String, String)>)
    ensures
        final(acc).deep_view() == keyed_union(old(acc).deep_view(), more.deep_view()),
{
    let ghost start = acc.deep_view();
    let mut i: usize = 0;
    assert(more.deep_view().take(0) =~= Seq::<(Seq<char>, Seq<char>)>::empty());
    while i < more.len()
        invariant
            i <= more.len(),
            acc.deep_view() == keyed_union(start, more.deep_view().take(i as int)),
        decreases more.len() - i,
    {
        let ghost taken = more.deep_view().take(i as int + 1);
        assert(taken.drop_last() =~= more.deep_view().take(i as int));
        assert(taken.last() == more.deep_view()[i as int]);
        if !contains_key(acc, &more[i].0) {
            let ghost before = acc.deep_view();
            let p = (more[i].0.clone(), more[i].1.clone());
            acc.push(p);
            assert(acc.deep_view() =~= before.push(more.deep_view()[i as int]));
        }
        i = i + 1;
    }
    assert(more.deep_view().take(more.len() as int) =~= more.deep_view());
}

impl CatalogMetadata {
    /// Merges `later` into `self` by the chain rule: an owner, doc URL,
    /// sample, trust level or maturity that `self` already has is kept,
    /// an unset one is taken from `later`; tags and attributes gain what
    /// `later` adds; `requires_approval` stays set once set.
    pub fn merge_from(&mut self, later: &CatalogMetadata)
        ensures
            final(self)@ == old(self)@.merged(later@),
            old(self).owner is Some ==> final(self).owner.deep_view() == old(self).owner.deep_view(),
            old(self).owner is None ==> final(self).owner.deep_view() == later.owner.deep_view(),
            old(self).doc_url is Some ==> final(self).doc_url.deep_view() == old(self).doc_url.deep_view(),
            old(self).doc_url is None ==> final(self).doc_url.deep_view() == later.doc_url.deep_view(),
            old(self).sample_arguments is Some ==> final(self).sample_arguments.deep_view() == old(self).sample_arguments.deep_view(),
            old(self).sample_arguments is None ==> final(self).sample_arguments.deep_view() == later.sample_arguments.deep_view(),
            old(self).trust_required is Some ==> final(self).trust_required.deep_view() == old(self).trust_required.deep_view(),
            old(self).trust_required is None ==> final(self).trust_required.deep_view() == later.trust_required.deep_view(),
            old(self).maturity is Some ==> final(self).maturity.deep_view() == old(self).maturity.deep_view(),
            old(self).maturity is None ==> final(self).maturity.deep_view() == later.maturity.deep_view(),
            final(self).requires_approval == (old(self).requires_approval || later.requires_approval),
    {
        union_strings_into(&mut self.tags, &later.tags);
        if self.owner.is_none() {
            self.owner = clone_opt_string(&later.owner);
        }
        if self.doc_url.is_none() {
            self.doc_url = clone_opt_string(&later.doc_url);
        }
        if self.sample_arguments.is_none() {
            self.sample_arguments = clone_opt_string(&later.sample_arguments);
        }
        if self.trust_required.is_none() {
            self.trust_required = clone_opt_string(&later.trust_required);
        }
        self.requires_approval = self.requires_approval || later.requires_approval;
        if self.maturity.is_none() {
            self.maturity = clone_opt_string(&later.maturity);
        }
        union_pairs_into(&mut self.attributes, &later.attributes);
    }

    /// Whether no field is set.
    pub fn is_empty(&self) -> (res: bool)
        ensures
            res == self@.is_empty(),
            res <==> self@ == CatalogMetadataView::empty(),
    {
        proof {
            law_is_empty_means_nothing_set(self@);
        }
        self.tags.len() == 0 && self.owner.is_none() && self.doc_url.is_none()
            && self.sample_arguments.is_none() && self.trust_required.is_none()
            && !self.requires_approval && self.maturity.is_none() && self.attributes.len() == 0
    }
}

impl Clone for CatalogMetadata {
    fn clone(&self) -> (r: Self)
        ensures
            r@ == self@,
    {
        CatalogMetadata {
            tags: clone_strings(&self.tags),
            owner: clone_opt_string(&self.owner),
            doc_url: clone_opt_string(&self.doc_url),
            sample_arguments: clone_opt_string(&self.sample_arguments),
            trust_required: clone_opt_string(&self.trust_required),
            requires_approval: self.requires_approval,
            maturity: clone_opt_string(&self.maturity),
            attributes: clone_pairs(&self.attributes),
        }
    }
}

impl Default for CatalogMetadata {
    fn default() -> (r: Self)
        ensures
            r@ == CatalogMetadataView::empty(),
    {
        let r = CatalogMetadata {
            tags: Vec::new(),
            owner: None,
            doc_url: None,
            sample_arguments: None,
            trust_required: None,
            requires_approval: false,
            maturity: None,
            attributes: Vec::new(),
        };
        assert(r@ =~= CatalogMetadataView::empty());
        r
    }
}

/// Every element of `seq_union(acc, more)` comes from `acc` or `more`, and
/// every element of either is in it; `acc` is its prefix.
pub proof fn lemma_seq_union_members<A>(acc: Seq<A>, more: Seq<A>)
    ensures
        forall|x: A| #[trigger] seq_union(acc, more).contains(x) <==> (acc.contains(x) || more.contains(x)),
        seq_union(acc, more).len() >= acc.len(),
        seq_union(acc, more).subrange(0, acc.len() as int) == acc,
    decreases more.len(),
{
    if more.len() > 0 {
        let prev = seq_union(acc, more.drop_last());
        lemma_seq_union_members(acc, more.drop_last());
        assert forall|x: A| #[trigger] seq_union(acc, more).contains(x) <==> (acc.contains(x) || more.contains(x)) by {
            if more.contains(x) && !more.drop_last().contains(x) {
                let k = choose|k: int| 0 <= k < more.len() && more[k] == x;
                if k < more.len() - 1 {
                    assert(more.drop_last()[k] == x);
                }
                assert(x == more.last());
            }
            if more.drop_last().contains(x) {
                let k = choose|k: int| 0 <= k < more.drop_last().len() && more.drop_last()[k] == x;
                assert(more[k] == x);
            }
            if !prev.contains(more.last()) {
                let next = prev.push(more.last());
                assert(next[prev.len() as int] == more.last());
                if prev.contains(x) {
                    let k = choose|k: int| 0 <= k < prev.len() && prev[k] == x;
                    assert(next[k] == x);
                }
                if next.contains(x) {
                    let k = choose|k: int| 0 <= k < next.len() && next[k] == x;
                    if k < prev.len() {
                        assert(prev[k] == x);
                    }
                }
            }
        }
        if !prev.contains(more.last()) {
            assert(prev.push(more.last()).subrange(0, acc.len() as int) =~= prev.subrange(0, acc.len() as int));
        }
    } else {
        assert(acc.subrange(0, acc.len() as int) =~= acc);
    }
}

/// When `acc` already holds every element of `more`, the union is `acc`.
pub proof fn lemma_seq_union_absorbs<A>(acc: Seq<A>, more: Seq<A>)
    requires
        forall|i: int| 0 <= i < more.len() ==> acc.contains(#[trigger] more[i]),
    ensures
        seq_union(acc, more) == acc,
    decreases more.len(),
{
    if more.len() > 0 {
        assert forall|i: int| 0 <= i < more.drop_last().len() implies acc.contains(#[trigger] more.drop_last()[i]) by {
            assert(more.drop_last()[i] == more[i]);
        }
        lemma_seq_union_absorbs(acc, more.drop_last());
        assert(acc.contains(more[more.len() - 1]));
    }
}

/// Every key of `keyed_union(acc, more)` is a key of `acc` or of `more`,
/// and every key of either is one of it; `acc` is its prefix.
pub proof fn lemma_keyed_union_keys<K, V>(acc: Seq<(K, V)>, more: Seq<(K, V)>)
    ensures
        forall|k: K| #[trigger] has_key(keyed_union(acc, more), k) <==> (has_key(acc, k) || has_key(more, k)),
        keyed_union(acc, more).len() >= acc.len(),
        keyed_union(acc, more).subrange(0, acc.len() as int) == acc,
    decreases more.len(),
{
    if more.len() > 0 {
        let prev = keyed_union(acc, more.drop_last());
        lemma_keyed_union_keys(acc, more.drop_last());
        assert forall|k: K| #[trigger] has_key(keyed_union(acc, more), k) <==> (has_key(acc, k) || has_key(more, k)) by {
            if has_key(more, k) && !has_key(more.drop_last(), k) {
                let j = choose|j: int| 0 <= j < more.len() && #[trigger] more[j].0 == k;
                if j < more.len() - 1 {
                    assert(more.drop_last()[j].0 == k);
                }
                assert(more.last().0 == k);
            }
            if has_key(more.drop_last(), k) {
                let j = choose|j: int| 0 <= j < more.drop_last().len() && #[trigger] more.drop_last()[j].0 == k;
                assert(more[j].0 == k);
            }
            if !has_key(prev, more.last().0) {
                let next = prev.push(more.last());
                assert(next[prev.len() as int].0 == more.last().0);
                if has_key(prev, k) {
                    let j = choose|j: int| 0 <= j < prev.len() && #[trigger] prev[j].0 == k;
                    assert(next[j].0 == k);
                }
                if has_key(next, k) {
                    let j = choose|j: int| 0 <= j < next.len() && #[trigger] next[j].0 == k;
                    if j < prev.len() {
                        assert(prev[j].0 == k);
                    }
                }
            }
        }
        if !has_key(prev, more.last().0) {
            assert(prev.push(more.last()).subrange(0, acc.len() as int) =~= prev.subrange(0, acc.len() as int));
        }
    } else {
        assert(acc.subrange(0, acc.len() as int) =~= acc);
    }
}

/// When `acc` already has every key of `more`, the union is `acc`.
pub proof fn lemma_keyed_union_absorbs<K, V>(acc: Seq<(K, V)>, more: Seq<(K, V)>)
    requires
        forall|i: int| 0 <= i < more.len() ==> has_key(acc, #[trigger] more[i].0),
    ensures
        keyed_union(acc, more) == acc,
    decreases more.len(),
{
    if more.len() > 0 {
        assert forall|i: int| 0 <= i < more.drop_last().len() implies has_key(acc, #[trigger] more.drop_last()[i].0) by {
            assert(more.drop_last()[i] == more[i]);
        }
        lemma_keyed_union_absorbs(acc, more.drop_last());
        assert(has_key(acc, more[more.len() - 1].0));
    }
}

/// Merging metadata into itself changes nothing.
pub proof fn law_merge_self_is_identity(m: CatalogMetadataView)
    ensures
        m.merged(m) == m,
{
    assert forall|i: int| 0 <= i < m.tags.len() implies m.tags.contains(#[trigger] m.tags[i]) by {}
    lemma_seq_union_absorbs(m.tags, m.tags);
    assert forall|i: int| 0 <= i < m.attributes.len() implies has_key(m.attributes, #[trigger] m.attributes[i].0) by {}
    lemma_keyed_union_absorbs(m.attributes, m.attributes);
    assert(m.merged(m) =~= m);
}

/// Merging empty metadata changes nothing.
pub proof fn law_merge_empty_is_identity(m: CatalogMetadataView)
    ensures
        m.merged(CatalogMetadataView::empty()) == m,
{
    assert(m.merged(CatalogMetadataView::empty()) =~= m);
}

/// Merging the same later metadata a second time changes nothing: what was
/// merged in once is already there.
pub proof fn law_merge_again_is_identity(m: CatalogMetadataView, later: CatalogMetadataView)
    ensures
        m.merged(later).merged(later) == m.merged(later),
{
    let once = m.merged(later);
    lemma_seq_union_members(m.tags, later.tags);
    assert forall|i: int| 0 <= i < later.tags.len() implies once.tags.contains(#[trigger] later.tags[i]) by {
        assert(later.tags.contains(later.tags[i]));
    }
    lemma_seq_union_absorbs(once.tags, later.tags);
    lemma_keyed_union_keys(m.attributes, later.attributes);
    assert forall|i: int| 0 <= i < later.attributes.len() implies has_key(once.attributes, #[trigger] later.attributes[i].0) by {
        assert(has_key(later.attributes, later.attributes[i].0));
    }
    lemma_keyed_union_absorbs(once.attributes, later.attributes);
    assert(once.merged(later) =~= once);
}

/// The merge keeps what the earlier metadata holds: its tags and attribute
/// pairs stay, in front and in order, every later tag and attribute key is
/// present afterwards, and no other tag or key appears.
pub proof fn law_merge_is_union(m: CatalogMetadataView, later: CatalogMetadataView)
    ensures
        m.merged(later).tags.subrange(0, m.tags.len() as int) == m.tags,
        m.merged(later).attributes.subrange(0, m.attributes.len() as int) == m.attributes,
        forall|t: Seq<char>| #[trigger] m.merged(later).tags.contains(t) <==> (m.tags.contains(t)
            || later.tags.contains(t)),
        forall|k: Seq<char>| #[trigger] has_key(m.merged(later).attributes, k) <==> (has_key(m.attributes, k)
            || has_key(later.attributes, k)),
{
    lemma_seq_union_members(m.tags, later.tags);
    lemma_keyed_union_keys(m.attributes, later.attributes);
}

/// Merging keeps every scalar field that the earlier metadata already sets
/// and takes the later value only for a field left unset; the approval
/// flag is set when either side sets it.
pub proof fn law_merge_first_write_wins(m: CatalogMetadataView, later: CatalogMetadataView)
    ensures
        m.owner is Some ==> m.merged(later).owner == m.owner,
        m.owner is None ==> m.merged(later).owner == later.owner,
        m.doc_url is Some ==> m.merged(later).doc_url == m.doc_url,
        m.doc_url is None ==> m.merged(later).doc_url == later.doc_url,
        m.sample_arguments is Some ==> m.merged(later).sample_arguments == m.sample_arguments,
        m.sample_arguments is None ==> m.merged(later).sample_arguments == later.sample_arguments,
        m.trust_required is Some ==> m.merged(later).trust_required == m.trust_required,
        m.trust_required is None ==> m.merged(later).trust_required == later.trust_required,
        m.maturity is Some ==> m.merged(later).maturity == m.maturity,
        m.maturity is None ==> m.merged(later).maturity == later.maturity,
        m.merged(later).requires_approval == (m.requires_approval || later.requires_approval),
{
}

/// Metadata counts as empty exactly when no field at all is set.
pub proof fn law_is_empty_means_nothing_set(m: CatalogMetadataView)
    ensures
        m.is_empty() <==> m == CatalogMetadataView::empty(),
        m.is_empty() ==> m.tags.len() == 0 && m.owner is None && m.doc_url is None
            && m.sample_arguments is None && m.trust_required is None && !m.requires_approval
            && m.maturity is None && m.attributes.len() == 0,
{
    if m.is_empty() {
        assert(m.tags =~= Seq::<Seq<char>>::empty());
        assert(m.attributes =~= Seq::<(Seq<char>, Seq<char>)>::empty());
        assert(m =~= CatalogMetadataView::empty());
    }
}

} // verus!
