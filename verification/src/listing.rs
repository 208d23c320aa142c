//! One listing of extensions, joined from the linter and the analyzer
//! registrations by extension identifier and ordered by that identifier.

use vstd::prelude::*;

use crate::registration::{AnalyzerExtension, AnalyzerPlugin, LinterExtension, LinterRule};
use crate::text::{compare_text, lemma_text_less_irreflexive, lemma_text_less_transitive, text_less, TextOrder};

verus! {

/// One logical extension, with everything it registers.
#[derive(Clone, Copy, Debug)]
pub struct ListedExtension<'r> {
    pub identifier: &'r str,
    pub name: &'r str,
    pub version: &'r str,
    pub rules: &'r [LinterRule],
    pub plugins: &'r [AnalyzerPlugin],
}

/// The index of the last linter registration with identifier `id`.
pub open spec fn last_linter_index(linter: Seq<LinterExtension>, id: Seq<char>) -> Option<int>
    decreases linter.len(),
{
    if linter.len() == 0 {
        None
    } else if linter.last().identifier@ == id {
        Some(linter.len() - 1)
    } else {
        last_linter_index(linter.drop_last(), id)
    }
}

/// The index of the last analyzer registration with identifier `id`.
pub open spec fn last_analyzer_index(analyzer: Seq<AnalyzerExtension>, id: Seq<char>) -> Option<
    int,
>
    decreases analyzer.len(),
{
    if analyzer.len() == 0 {
        None
    } else if analyzer.last().identifier@ == id {
        Some(analyzer.len() - 1)
    } else {
        last_analyzer_index(analyzer.drop_last(), id)
    }
}

/// Whether some registration, of either kind, has identifier `id`.
pub open spec fn is_registered(
    linter: Seq<LinterExtension>,
    analyzer: Seq<AnalyzerExtension>,
    id: Seq<char>,
) -> bool {
    last_linter_index(linter, id) is Some || last_analyzer_index(analyzer, id) is Some
}

/// The rules of extension `id`: those of its last linter registration, if any.
pub open spec fn registered_rules(linter: Seq<LinterExtension>, id: Seq<char>) -> Seq<LinterRule> {
    match last_linter_index(linter, id) {
        Some(i) => linter[i].rules@,
        None => Seq::empty(),
    }
}

/// The plugins of extension `id`: those of its last analyzer registration, if
/// any.
pub open spec fn registered_plugins(analyzer: Seq<AnalyzerExtension>, id: Seq<char>) -> Seq<
    AnalyzerPlugin,
> {
    match last_analyzer_index(analyzer, id) {
        Some(j) => analyzer[j].plugins@,
        None => Seq::empty(),
    }
}

/// The name of extension `id`: an analyzer registration's name wins over a
/// linter registration's, and a later registration over an earlier one.
pub open spec fn registered_name(
    linter: Seq<LinterExtension>,
    analyzer: Seq<AnalyzerExtension>,
    id: Seq<char>,
) -> Seq<char> {
    match last_analyzer_index(analyzer, id) {
        Some(j) => analyzer[j].name@,
        None => match last_linter_index(linter, id) {
            Some(i) => linter[i].name@,
            None => Seq::empty(),
        },
    }
}

/// The version of extension `id`, chosen as its name is.
pub open spec fn registered_version(
    linter: Seq<LinterExtension>,
    analyzer: Seq<AnalyzerExtension>,
    id: Seq<char>,
) -> Seq<char> {
    match last_analyzer_index(analyzer, id) {
        Some(j) => analyzer[j].version@,
        None => match last_linter_index(linter, id) {
            Some(i) => linter[i].version@,
            None => Seq::empty(),
        },
    }
}

/// Whether `entry` is what the registrations say of its identifier.
pub open spec fn is_joined_entry(
    entry: ListedExtension,
    linter: Seq<LinterExtension>,
    analyzer: Seq<AnalyzerExtension>,
) -> bool {
    let id = entry.identifier@;
    &&& is_registered(linter, analyzer, id)
    &&& entry.name@ == registered_name(linter, analyzer, id)
    &&& entry.version@ == registered_version(linter, analyzer, id)
    &&& entry.rules@ == registered_rules(linter, id)
    &&& entry.plugins@ == registered_plugins(analyzer, id)
}

/// Entries in strictly increasing order of identifier: no identifier twice.
pub open spec fn is_ordered(entries: Seq<ListedExtension>) -> bool {
    forall|x: int, y: int|
        0 <= x < y < entries.len() ==> text_less(
            #[trigger] entries[x].identifier@,
            #[trigger] entries[y].identifier@,
        )
}

/// Whether `entries` is the join of the two registration lists: ordered by
/// identifier, one entry for each registered identifier and no other.
pub open spec fn is_join(
    entries: Seq<ListedExtension>,
    linter: Seq<LinterExtension>,
    analyzer: Seq<AnalyzerExtension>,
) -> bool {
    &&& is_ordered(entries)
    &&& forall|x: int| 0 <= x < entries.len() ==> is_joined_entry(#[trigger] entries[x], linter, analyzer)
    &&& forall|id: Seq<char>|
        is_registered(linter, analyzer, id) ==> exists|x: int|
            0 <= x < entries.len() && (#[trigger] entries[x].identifier@) == id
}

/// In an ordered listing, different positions hold different identifiers.
pub proof fn lemma_ordered_distinct(entries: Seq<ListedExtension>, x: int, y: int)
    requires
        is_ordered(entries),
        0 <= x < entries.len(),
        0 <= y < entries.len(),
        x != y,
    ensures
        entries[x].identifier@ != entries[y].identifier@,
{
    if x < y {
        assert(text_less(entries[x].identifier@, entries[y].identifier@));
    } else {
        assert(text_less(entries[y].identifier@, entries[x].identifier@));
    }
    lemma_text_less_irreflexive(entries[x].identifier@);
}

/// Texts in strictly increasing order.
pub open spec fn strictly_increasing(texts: Seq<Seq<char>>) -> bool {
    forall|x: int, y: int| 0 <= x < y < texts.len() ==> text_less(#[trigger] texts[x], #[trigger] texts[y])
}

/// Two strictly increasing sequences that hold the same texts are equal.
pub proof fn lemma_increasing_same_texts(a: Seq<Seq<char>>, b: Seq<Seq<char>>)
    requires
        strictly_increasing(a),
        strictly_increasing(b),
        forall|t: Seq<char>| a.contains(t) <==> b.contains(t),
    ensures
        a == b,
    decreases a.len(),
{
    if a.len() == 0 {
        if b.len() > 0 {
            assert(b.contains(b[0]));
        }
        assert(a =~= b);
    } else if b.len() == 0 {
        assert(a.contains(a[0]));
    } else {
        assert(a.contains(a[0]));
        assert(b.contains(b[0]));
        let k = choose|k: int| 0 <= k < b.len() && b[k] == a[0];
        let m = choose|m: int| 0 <= m < a.len() && a[m] == b[0];
        if k > 0 {
            assert(text_less(b[0], b[k]));
            if m > 0 {
                assert(text_less(a[0], a[m]));
                lemma_text_less_transitive(a[0], b[0], a[0]);
            }
            lemma_text_less_irreflexive(a[0]);
        }
        let a1 = a.drop_first();
        let b1 = b.drop_first();
        assert forall|t: Seq<char>| a1.contains(t) <==> b1.contains(t) by {
            if a1.contains(t) {
                let i = choose|i: int| 0 <= i < a1.len() && a1[i] == t;
                assert(a.contains(t) && a[i + 1] == t);
                assert(text_less(a[0], a[i + 1]));
                lemma_text_less_irreflexive(t);
                let j = choose|j: int| 0 <= j < b.len() && b[j] == t;
                assert(j != 0);
                assert(b1[j - 1] == t);
            }
            if b1.contains(t) {
                let i = choose|i: int| 0 <= i < b1.len() && b1[i] == t;
                assert(b.contains(t) && b[i + 1] == t);
                assert(text_less(b[0], b[i + 1]));
                lemma_text_less_irreflexive(t);
                let j = choose|j: int| 0 <= j < a.len() && a[j] == t;
                assert(j != 0);
                assert(a1[j - 1] == t);
            }
        }
        assert(strictly_increasing(a1)) by {
            assert forall|x: int, y: int| 0 <= x < y < a1.len() implies text_less(
                #[trigger] a1[x],
                #[trigger] a1[y],
            ) by {
                assert(a1[x] == a[x + 1] && a1[y] == a[y + 1]);
            }
        }
        assert(strictly_increasing(b1)) by {
            assert forall|x: int, y: int| 0 <= x < y < b1.len() implies text_less(
                #[trigger] b1[x],
                #[trigger] b1[y],
            ) by {
                assert(b1[x] == b[x + 1] && b1[y] == b[y + 1]);
            }
        }
        lemma_increasing_same_texts(a1, b1);
        assert(a =~= seq![a[0]] + a1);
        assert(b =~= seq![b[0]] + b1);
    }
}

/// The identifiers of listed entries, in order.
pub open spec fn identifiers(entries: Seq<ListedExtension>) -> Seq<Seq<char>> {
    entries.map_values(|entry: ListedExtension| entry.identifier@)
}

/// Two entries that show the same extension alike.
pub open spec fn same_entry(a: ListedExtension, b: ListedExtension) -> bool {
    &&& a.identifier@ == b.identifier@
    &&& a.name@ == b.name@
    &&& a.version@ == b.version@
    &&& a.rules@ == b.rules@
    &&& a.plugins@ == b.plugins@
}

/// The registrations determine their join: two joins of the same
/// registrations list the same extensions in the same order, each with the
/// same name, version, rules and plugins.
pub proof fn lemma_join_is_determined(
    first: Seq<ListedExtension>,
    second: Seq<ListedExtension>,
    linter: Seq<LinterExtension>,
    analyzer: Seq<AnalyzerExtension>,
)
    requires
        is_join(first, linter, analyzer),
        is_join(second, linter, analyzer),
    ensures
        first.len() == second.len(),
        forall|x: int| 0 <= x < first.len() ==> same_entry(#[trigger] first[x], second[x]),
{
    let a = identifiers(first);
    let b = identifiers(second);
    assert(strictly_increasing(a)) by {
        assert forall|x: int, y: int| 0 <= x < y < a.len() implies text_less(
            #[trigger] a[x],
            #[trigger] a[y],
        ) by {
            assert(text_less(first[x].identifier@, first[y].identifier@));
        }
    }
    assert(strictly_increasing(b)) by {
        assert forall|x: int, y: int| 0 <= x < y < b.len() implies text_less(
            #[trigger] b[x],
            #[trigger] b[y],
        ) by {
            assert(text_less(second[x].identifier@, second[y].identifier@));
        }
    }
    assert forall|t: Seq<char>| a.contains(t) <==> b.contains(t) by {
        if a.contains(t) {
            let x = choose|x: int| 0 <= x < a.len() && a[x] == t;
            assert(is_joined_entry(first[x], linter, analyzer));
            let y = choose|y: int| 0 <= y < second.len() && (#[trigger] second[y].identifier@) == t;
            assert(b[y] == t);
        }
        if b.contains(t) {
            let y = choose|y: int| 0 <= y < b.len() && b[y] == t;
            assert(is_joined_entry(second[y], linter, analyzer));
            let x = choose|x: int| 0 <= x < first.len() && (#[trigger] first[x].identifier@) == t;
            assert(a[x] == t);
        }
    }
    lemma_increasing_same_texts(a, b);
    assert forall|x: int| 0 <= x < first.len() implies same_entry(#[trigger] first[x], second[x]) by {
        assert(a[x] == b[x]);
        assert(is_joined_entry(first[x], linter, analyzer));
        assert(is_joined_entry(second[x], linter, analyzer));
    }
}

/// Where `id` stands in an ordered listing: at `pos` when `found`, else `pos`
/// is where it would be inserted.
fn locate(entries: &Vec<ListedExtension>, id: &str) -> (located: (usize, bool))
    requires
        is_ordered(entries@),
    ensures
        located.0 <= entries@.len(),
        located.1 ==> located.0 < entries@.len() && entries@[located.0 as int].identifier@ == id@,
        !located.1 ==> forall|x: int|
            0 <= x < entries@.len() ==> (x < located.0 ==> text_less(
                #[trigger] entries@[x].identifier@,
                id@,
            )) && (x >= located.0 ==> text_less(id@, entries@[x].identifier@)),
{
    let mut pos: usize = 0;
    while pos < entries.len()
        invariant
            is_ordered(entries@),
            pos <= entries@.len(),
            forall|x: int| 0 <= x < pos ==> text_less(#[trigger] entries@[x].identifier@, id@),
        decreases entries@.len() - pos,
    {
        match compare_text(entries[pos].identifier, id) {
            TextOrder::Less => {
                pos = pos + 1;
            },
            TextOrder::Equal => {
                return (pos, true);
            },
            TextOrder::Greater => {
                assert forall|x: int| 0 <= x < entries@.len() && x >= pos implies text_less(
                    id@,
                    #[trigger] entries@[x].identifier@,
                ) by {
                    if x > pos {
                        lemma_text_less_transitive(
                            id@,
                            entries@[pos as int].identifier@,
                            entries@[x].identifier@,
                        );
                    }
                }
                return (pos, false);
            },
        }
    }
    (pos, false)
}


/// A found index is in range and names `id`.
pub proof fn lemma_last_linter_index_bounds(linter: Seq<LinterExtension>, id: Seq<char>)
    ensures
        last_linter_index(linter, id) matches Some(i) ==> 0 <= i < linter.len()
            && linter[i].identifier@ == id,
    decreases linter.len(),
{
    if linter.len() > 0 && linter.last().identifier@ != id {
        lemma_last_linter_index_bounds(linter.drop_last(), id);
    }
}

/// A found index is in range and names `id`.
pub proof fn lemma_last_analyzer_index_bounds(analyzer: Seq<AnalyzerExtension>, id: Seq<char>)
    ensures
        last_analyzer_index(analyzer, id) matches Some(j) ==> 0 <= j < analyzer.len()
            && analyzer[j].identifier@ == id,
    decreases analyzer.len(),
{
    if analyzer.len() > 0 && analyzer.last().identifier@ != id {
        lemma_last_analyzer_index_bounds(analyzer.drop_last(), id);
    }
}

/// What taking one more linter registration changes for identifier `id`.
proof fn lemma_linter_step(
    linter: Seq<LinterExtension>,
    analyzer: Seq<AnalyzerExtension>,
    i: int,
    id: Seq<char>,
)
    requires
        0 <= i < linter.len(),
    ensures
        linter[i].identifier@ == id ==> {
            &&& last_linter_index(linter.take(i + 1), id) == Some(i)
            &&& registered_rules(linter.take(i + 1), id) == linter[i].rules@
            &&& last_analyzer_index(analyzer, id) is None ==> registered_name(
                linter.take(i + 1),
                analyzer,
                id,
            ) == linter[i].name@ && registered_version(linter.take(i + 1), analyzer, id)
                == linter[i].version@
            &&& last_analyzer_index(analyzer, id) is Some ==> registered_name(
                linter.take(i + 1),
                analyzer,
                id,
            ) == registered_name(linter.take(i), analyzer, id) && registered_version(
                linter.take(i + 1),
                analyzer,
                id,
            ) == registered_version(linter.take(i), analyzer, id)
        },
        linter[i].identifier@ != id ==> {
            &&& last_linter_index(linter.take(i + 1), id) == last_linter_index(linter.take(i), id)
            &&& registered_rules(linter.take(i + 1), id) == registered_rules(linter.take(i), id)
            &&& registered_name(linter.take(i + 1), analyzer, id) == registered_name(
                linter.take(i),
                analyzer,
                id,
            )
            &&& registered_version(linter.take(i + 1), analyzer, id) == registered_version(
                linter.take(i),
                analyzer,
                id,
            )
        },
{
    let next = linter.take(i + 1);
    assert(next.drop_last() =~= linter.take(i));
    assert(next.last() == linter[i]);
    lemma_last_linter_index_bounds(linter.take(i), id);
}

/// What taking one more analyzer registration changes for identifier `id`.
proof fn lemma_analyzer_step(
    linter: Seq<LinterExtension>,
    analyzer: Seq<AnalyzerExtension>,
    j: int,
    id: Seq<char>,
)
    requires
        0 <= j < analyzer.len(),
    ensures
        analyzer[j].identifier@ == id ==> {
            &&& last_analyzer_index(analyzer.take(j + 1), id) == Some(j)
            &&& registered_plugins(analyzer.take(j + 1), id) == analyzer[j].plugins@
            &&& registered_name(linter, analyzer.take(j + 1), id) == analyzer[j].name@
            &&& registered_version(linter, analyzer.take(j + 1), id) == analyzer[j].version@
        },
        analyzer[j].identifier@ != id ==> {
            &&& last_analyzer_index(analyzer.take(j + 1), id) == last_analyzer_index(
                analyzer.take(j),
                id,
            )
            &&& registered_plugins(analyzer.take(j + 1), id) == registered_plugins(
                analyzer.take(j),
                id,
            )
            &&& registered_name(linter, analyzer.take(j + 1), id) == registered_name(
                linter,
                analyzer.take(j),
                id,
            )
            &&& registered_version(linter, analyzer.take(j + 1), id) == registered_version(
                linter,
                analyzer.take(j),
                id,
            )
        },
{
    let next = analyzer.take(j + 1);
    assert(next.drop_last() =~= analyzer.take(j));
    assert(next.last() == analyzer[j]);
    lemma_last_analyzer_index_bounds(analyzer.take(j), id);
}

/// The sum of `count` over `items`.
pub open spec fn sum_of<A>(items: Seq<A>, count: spec_fn(A) -> nat) -> nat
    decreases items.len(),
{
    if items.len() == 0 {
        0
    } else {
        sum_of(items.drop_last(), count) + count(items.last())
    }
}

/// Replacing one item changes the sum by the difference of the counts.
pub proof fn lemma_sum_update<A>(items: Seq<A>, count: spec_fn(A) -> nat, p: int, item: A)
    requires
        0 <= p < items.len(),
    ensures
        sum_of(items.update(p, item), count) + count(items[p]) == sum_of(items, count) + count(
            item,
        ),
    decreases items.len(),
{
    if p == items.len() - 1 {
        assert(items.update(p, item).drop_last() =~= items.drop_last());
    } else {
        assert(items.update(p, item).drop_last() =~= items.drop_last().update(p, item));
        lemma_sum_update(items.drop_last(), count, p, item);
    }
}

/// Inserting one item adds its count to the sum.
pub proof fn lemma_sum_insert<A>(items: Seq<A>, count: spec_fn(A) -> nat, p: int, item: A)
    requires
        0 <= p <= items.len(),
    ensures
        sum_of(items.insert(p, item), count) == sum_of(items, count) + count(item),
    decreases items.len(),
{
    if p == items.len() {
        assert(items.insert(p, item).drop_last() =~= items);
    } else {
        assert(items.insert(p, item).drop_last() =~= items.drop_last().insert(p, item));
        assert(items.insert(p, item).last() == items.last());
        lemma_sum_insert(items.drop_last(), count, p, item);
    }
}

/// A prefix sums to no more than the whole.
pub proof fn lemma_sum_prefix<A>(items: Seq<A>, count: spec_fn(A) -> nat, n: int)
    requires
        0 <= n <= items.len(),
    ensures
        sum_of(items.take(n), count) <= sum_of(items, count),
    decreases items.len(),
{
    if n < items.len() {
        lemma_sum_prefix(items.drop_last(), count, n);
        assert(items.drop_last().take(n) =~= items.take(n));
    } else {
        assert(items.take(n) =~= items);
    }
}

/// A prefix one longer sums to one more count.
pub proof fn lemma_sum_prefix_step<A>(items: Seq<A>, count: spec_fn(A) -> nat, n: int)
    requires
        0 <= n < items.len(),
    ensures
        sum_of(items.take(n + 1), count) == sum_of(items.take(n), count) + count(items[n]),
{
    assert(items.take(n + 1).drop_last() =~= items.take(n));
}

/// The number of rules of a listed extension.
pub open spec fn listed_rule_count<'r>() -> spec_fn(ListedExtension<'r>) -> nat {
    |entry: ListedExtension| entry.rules@.len()
}

/// The number of plugins of a listed extension.
pub open spec fn listed_plugin_count<'r>() -> spec_fn(ListedExtension<'r>) -> nat {
    |entry: ListedExtension| entry.plugins@.len()
}

/// The number of rules of a linter registration.
pub open spec fn linter_rule_count() -> spec_fn(LinterExtension) -> nat {
    |extension: LinterExtension| extension.rules@.len()
}

/// The number of plugins of an analyzer registration.
pub open spec fn analyzer_plugin_count() -> spec_fn(AnalyzerExtension) -> nat {
    |extension: AnalyzerExtension| extension.plugins@.len()
}

/// No two linter registrations share an identifier.
pub open spec fn linter_ids_unique(linter: Seq<LinterExtension>) -> bool {
    forall|i: int, k: int|
        0 <= i < k < linter.len() ==> (#[trigger] linter[i]).identifier@ != (
        #[trigger] linter[k]).identifier@
}

/// No two analyzer registrations share an identifier.
pub open spec fn analyzer_ids_unique(analyzer: Seq<AnalyzerExtension>) -> bool {
    forall|i: int, k: int|
        0 <= i < k < analyzer.len() ==> (#[trigger] analyzer[i]).identifier@ != (
        #[trigger] analyzer[k]).identifier@
}

/// How the numbers of listed rules and plugins relate to those registered:
/// never more, and all of them where identifiers are unique.
pub open spec fn counts_kept(
    entries: Seq<ListedExtension>,
    linter: Seq<LinterExtension>,
    analyzer: Seq<AnalyzerExtension>,
) -> bool {
    &&& sum_of(entries, listed_rule_count()) <= sum_of(linter, linter_rule_count())
    &&& sum_of(entries, listed_plugin_count()) <= sum_of(analyzer, analyzer_plugin_count())
    &&& linter_ids_unique(linter) ==> sum_of(entries, listed_rule_count()) == sum_of(
        linter,
        linter_rule_count(),
    )
    &&& analyzer_ids_unique(analyzer) ==> sum_of(entries, listed_plugin_count()) == sum_of(
        analyzer,
        analyzer_plugin_count(),
    )
}

/// Extensions keyed by identifier: the entries stand in increasing order of
/// identifier, so that no identifier occurs twice.
pub struct Listing<'r> {
    entries: Vec<ListedExtension<'r>>,
}

impl<'r> Listing<'r> {
    #[verifier::type_invariant]
    spec fn ordered(self) -> bool {
        is_ordered(self.entries@)
    }

    /// The entries, in increasing order of identifier.
    pub closed spec fn view(&self) -> Seq<ListedExtension<'r>> {
        self.entries@
    }

    /// The number of listed extensions.
    pub fn len(&self) -> (count: usize)
        ensures
            count == self.view().len(),
    {
        self.entries.len()
    }

    /// The entries, in increasing order of identifier.
    pub fn entries(&self) -> (entries: &[ListedExtension<'r>])
        ensures
            entries@ == self.view(),
            is_ordered(entries@),
    {
        proof {
            use_type_invariant(self);
        }
        self.entries.as_slice()
    }

    /// The number of linter rules of all listed extensions.
    pub fn total_rules(&self) -> (total: usize)
        requires
            sum_of(self.view(), listed_rule_count()) <= usize::MAX,
        ensures
            total == sum_of(self.view(), listed_rule_count()),
    {
        let mut total: usize = 0;
        let mut x: usize = 0;
        assert(self.entries@.take(0) =~= Seq::<ListedExtension>::empty());
        while x < self.entries.len()
            invariant
                x <= self.entries@.len(),
                sum_of(self.entries@, listed_rule_count()) <= usize::MAX,
                total == sum_of(self.entries@.take(x as int), listed_rule_count()),
            decreases self.entries@.len() - x,
        {
            proof {
                lemma_sum_prefix_step(self.entries@, listed_rule_count(), x as int);
                lemma_sum_prefix(self.entries@, listed_rule_count(), x + 1);
            }
            total = total + self.entries[x].rules.len();
            x = x + 1;
        }
        assert(self.entries@.take(x as int) =~= self.entries@);
        total
    }

    /// The number of analyzer plugins of all listed extensions.
    pub fn total_plugins(&self) -> (total: usize)
        requires
            sum_of(self.view(), listed_plugin_count()) <= usize::MAX,
        ensures
            total == sum_of(self.view(), listed_plugin_count()),
    {
        let mut total: usize = 0;
        let mut x: usize = 0;
        assert(self.entries@.take(0) =~= Seq::<ListedExtension>::empty());
        while x < self.entries.len()
            invariant
                x <= self.entries@.len(),
                sum_of(self.entries@, listed_plugin_count()) <= usize::MAX,
                total == sum_of(self.entries@.take(x as int), listed_plugin_count()),
            decreases self.entries@.len() - x,
        {
            proof {
                lemma_sum_prefix_step(self.entries@, listed_plugin_count(), x as int);
                lemma_sum_prefix(self.entries@, listed_plugin_count(), x + 1);
            }
            total = total + self.entries[x].plugins.len();
            x = x + 1;
        }
        assert(self.entries@.take(x as int) =~= self.entries@);
        total
    }

    /// The entry of the extension with identifier `identifier`, if listed.
    pub fn get(&self, identifier: &str) -> (entry: Option<&ListedExtension<'r>>)
        ensures
            entry is None <==> forall|x: int|
                0 <= x < self.view().len() ==> (#[trigger] self.view()[x].identifier@)
                    != identifier@,
            entry matches Some(e) ==> exists|x: int|
                0 <= x < self.view().len() && self.view()[x] == *e && (
                #[trigger] self.view()[x].identifier@) == identifier@,
    {
        proof {
            use_type_invariant(self);
        }
        let (pos, found) = locate(&self.entries, identifier);
        if found {
            assert(self.view()[pos as int].identifier@ == identifier@);
            Some(&self.entries[pos])
        } else {
            proof {
                lemma_text_less_irreflexive(identifier@);
            }
            assert forall|x: int|
                0 <= x < self.view().len() implies (#[trigger] self.view()[x].identifier@)
                != identifier@ by {
                if x < pos {
                    assert(text_less(self.entries@[x].identifier@, identifier@));
                } else {
                    assert(text_less(identifier@, self.entries@[x].identifier@));
                }
            }
            None
        }
    }
}

/// Joins the linter and analyzer registrations by extension identifier.
///
/// Every identifier that either list registers is listed once, in increasing
/// order. Its rules come from its last linter registration and its plugins
/// from its last analyzer registration; its name and version from its last
/// analyzer registration where there is one, else from its last linter one.
pub fn join_registrations<'r>(
    linter: &'r [LinterExtension],
    analyzer: &'r [AnalyzerExtension],
) -> (listed: Listing<'r>)
    ensures
        is_join(listed.view(), linter@, analyzer@),
        counts_kept(listed.view(), linter@, analyzer@),
{
    let mut listed: Vec<ListedExtension<'r>> = Vec::new();
    let no_plugins: &'r [AnalyzerPlugin] = &[];
    let no_rules: &'r [LinterRule] = &[];
    let ghost none: Seq<AnalyzerExtension> = Seq::empty();
    assert(no_plugins@ =~= Seq::<AnalyzerPlugin>::empty());
    assert(no_rules@ =~= Seq::<LinterRule>::empty());
    assert(linter@.take(0) =~= Seq::<LinterExtension>::empty());
    let mut i: usize = 0;
    while i < linter.len()
        invariant
            i <= linter@.len(),
            no_plugins@ == Seq::<AnalyzerPlugin>::empty(),
            no_rules@ == Seq::<LinterRule>::empty(),
            none.len() == 0,
            is_join(listed@, linter@.take(i as int), none),
            counts_kept(listed@, linter@.take(i as int), none),
        decreases linter@.len() - i,
    {
        let extension = &linter[i];
        let ghost before = listed@;
        let ghost old_prefix = linter@.take(i as int);
        let ghost new_prefix = linter@.take(i + 1);
        let (pos, found) = locate(&listed, extension.identifier.as_str());
        if found {
            let current = listed[pos];
            let entry = ListedExtension {
                identifier: current.identifier,
                name: extension.name.as_str(),
                version: extension.version.as_str(),
                rules: extension.rules.as_slice(),
                plugins: current.plugins,
            };
            listed[pos] = entry;
            proof {
                assert(listed@ == before.update(pos as int, entry));
                lemma_sum_update(before, listed_rule_count(), pos as int, entry);
                lemma_sum_update(before, listed_plugin_count(), pos as int, entry);
                assert(new_prefix.drop_last() =~= old_prefix);
                if linter_ids_unique(new_prefix) {
                    let id = extension.identifier@;
                    assert(is_joined_entry(before[pos as int], old_prefix, none));
                    lemma_last_linter_index_bounds(old_prefix, id);
                    let k = last_linter_index(old_prefix, id)->0;
                    assert(new_prefix[k] == old_prefix[k]);
                    assert(new_prefix[i as int] == linter@[i as int]);
                    assert(false);
                }
                assert forall|x: int| 0 <= x < listed@.len() implies is_joined_entry(
                    #[trigger] listed@[x],
                    new_prefix,
                    none,
                ) by {
                    lemma_linter_step(linter@, none, i as int, listed@[x].identifier@);
                    if x != pos {
                        lemma_ordered_distinct(before, x, pos as int);
                        assert(is_joined_entry(before[x], old_prefix, none));
                    } else {
                        assert(is_joined_entry(before[x], old_prefix, none));
                    }
                }
                assert forall|id: Seq<char>| is_registered(new_prefix, none, id) implies exists|
                    x: int,
                | 0 <= x < listed@.len() && (#[trigger] listed@[x].identifier@) == id by {
                    lemma_linter_step(linter@, none, i as int, id);
                    if id == extension.identifier@ {
                        assert(listed@[pos as int].identifier@ == id);
                    } else {
                        assert(is_registered(old_prefix, none, id));
                        let x = choose|x: int|
                            0 <= x < before.len() && (#[trigger] before[x].identifier@) == id;
                        if x == pos {
                            assert(listed@[x].identifier@ == before[x].identifier@);
                        } else {
                            assert(listed@[x] == before[x]);
                        }
                        assert(listed@[x].identifier@ == id);
                    }
                }
            }
        } else {
            let entry = ListedExtension {
                identifier: extension.identifier.as_str(),
                name: extension.name.as_str(),
                version: extension.version.as_str(),
                rules: extension.rules.as_slice(),
                plugins: no_plugins,
            };
            listed.insert(pos, entry);
            proof {
                assert(listed@ == before.insert(pos as int, entry));
                lemma_sum_insert(before, listed_rule_count(), pos as int, entry);
                lemma_sum_insert(before, listed_plugin_count(), pos as int, entry);
                assert(new_prefix.drop_last() =~= old_prefix);
                if linter_ids_unique(new_prefix) {
                    assert forall|u: int, v: int| 0 <= u < v < old_prefix.len() implies (
                    #[trigger] old_prefix[u]).identifier@ != (#[trigger] old_prefix[v]).identifier@ by {
                        assert(old_prefix[u] == new_prefix[u]);
                        assert(old_prefix[v] == new_prefix[v]);
                    }
                }
                assert forall|x: int, y: int| 0 <= x < y < listed@.len() implies text_less(
                    #[trigger] listed@[x].identifier@,
                    #[trigger] listed@[y].identifier@,
                ) by {
                    if y < pos {
                    } else if y == pos {
                    } else if x < pos {
                        lemma_text_less_transitive(
                            listed@[x].identifier@,
                            entry.identifier@,
                            listed@[y].identifier@,
                        );
                    } else if x == pos {
                    } else {
                        assert(listed@[x] == before[x - 1]);
                        assert(listed@[y] == before[y - 1]);
                    }
                }
                assert forall|x: int| 0 <= x < listed@.len() implies is_joined_entry(
                    #[trigger] listed@[x],
                    new_prefix,
                    none,
                ) by {
                    lemma_linter_step(linter@, none, i as int, listed@[x].identifier@);
                    if x < pos {
                        assert(listed@[x] == before[x]);
                        assert(text_less(before[x].identifier@, extension.identifier@));
                        lemma_text_less_irreflexive(entry.identifier@);
                        assert(is_joined_entry(before[x], old_prefix, none));
                    } else if x > pos {
                        assert(listed@[x] == before[x - 1]);
                        assert(text_less(extension.identifier@, before[x - 1].identifier@));
                        lemma_text_less_irreflexive(entry.identifier@);
                        assert(is_joined_entry(before[x - 1], old_prefix, none));
                    } else {
                        assert(listed@[x] == entry);
                    }
                }
                assert forall|id: Seq<char>| is_registered(new_prefix, none, id) implies exists|
                    x: int,
                | 0 <= x < listed@.len() && (#[trigger] listed@[x].identifier@) == id by {
                    lemma_linter_step(linter@, none, i as int, id);
                    if id == extension.identifier@ {
                        assert(listed@[pos as int].identifier@ == id);
                    } else {
                        assert(is_registered(old_prefix, none, id));
                        let x = choose|x: int|
                            0 <= x < before.len() && (#[trigger] before[x].identifier@) == id;
                        if x < pos {
                            assert(listed@[x].identifier@ == id);
                        } else {
                            assert(listed@[x + 1].identifier@ == id);
                        }
                    }
                }
            }
        }
        i = i + 1;
    }
    assert(linter@.take(linter@.len() as int) =~= linter@);
    assert(analyzer@.take(0) =~= none);
    let mut j: usize = 0;
    while j < analyzer.len()
        invariant
            i == linter@.len(),
            j <= analyzer@.len(),
            no_plugins@ == Seq::<AnalyzerPlugin>::empty(),
            no_rules@ == Seq::<LinterRule>::empty(),
            is_join(listed@, linter@, analyzer@.take(j as int)),
            counts_kept(listed@, linter@, analyzer@.take(j as int)),
        decreases analyzer@.len() - j,
    {
        let extension = &analyzer[j];
        let ghost before = listed@;
        let ghost old_prefix = analyzer@.take(j as int);
        let ghost new_prefix = analyzer@.take(j + 1);
        let (pos, found) = locate(&listed, extension.identifier.as_str());
        if found {
            let current = listed[pos];
            let entry = ListedExtension {
                identifier: current.identifier,
                name: extension.name.as_str(),
                version: extension.version.as_str(),
                rules: current.rules,
                plugins: extension.plugins.as_slice(),
            };
            listed[pos] = entry;
            proof {
                assert(listed@ == before.update(pos as int, entry));
                lemma_sum_update(before, listed_rule_count(), pos as int, entry);
                lemma_sum_update(before, listed_plugin_count(), pos as int, entry);
                assert(new_prefix.drop_last() =~= old_prefix);
                if analyzer_ids_unique(new_prefix) {
                    let id = extension.identifier@;
                    assert(is_joined_entry(before[pos as int], linter@, old_prefix));
                    lemma_last_analyzer_index_bounds(old_prefix, id);
                    if last_analyzer_index(old_prefix, id) is Some {
                        let k = last_analyzer_index(old_prefix, id)->0;
                        assert(new_prefix[k] == old_prefix[k]);
                        assert(new_prefix[j as int] == analyzer@[j as int]);
                        assert(false);
                    }
                    assert(before[pos as int].plugins@.len() == 0);
                    assert forall|u: int, v: int| 0 <= u < v < old_prefix.len() implies (
                    #[trigger] old_prefix[u]).identifier@ != (#[trigger] old_prefix[v]).identifier@ by {
                        assert(old_prefix[u] == new_prefix[u]);
                        assert(old_prefix[v] == new_prefix[v]);
                    }
                }
                assert forall|x: int| 0 <= x < listed@.len() implies is_joined_entry(
                    #[trigger] listed@[x],
                    linter@,
                    new_prefix,
                ) by {
                    lemma_analyzer_step(linter@, analyzer@, j as int, listed@[x].identifier@);
                    if x != pos {
                        lemma_ordered_distinct(before, x, pos as int);
                        assert(is_joined_entry(before[x], linter@, old_prefix));
                    } else {
                        assert(is_joined_entry(before[x], linter@, old_prefix));
                    }
                }
                assert forall|id: Seq<char>| is_registered(linter@, new_prefix, id) implies exists|
                    x: int,
                | 0 <= x < listed@.len() && (#[trigger] listed@[x].identifier@) == id by {
                    lemma_analyzer_step(linter@, analyzer@, j as int, id);
                    if id == extension.identifier@ {
                        assert(listed@[pos as int].identifier@ == id);
                    } else {
                        assert(is_registered(linter@, old_prefix, id));
                        let x = choose|x: int|
                            0 <= x < before.len() && (#[trigger] before[x].identifier@) == id;
                        if x == pos {
                            assert(listed@[x].identifier@ == before[x].identifier@);
                        } else {
                            assert(listed@[x] == before[x]);
                        }
                        assert(listed@[x].identifier@ == id);
                    }
                }
            }
        } else {
            let entry = ListedExtension {
                identifier: extension.identifier.as_str(),
                name: extension.name.as_str(),
                version: extension.version.as_str(),
                rules: no_rules,
                plugins: extension.plugins.as_slice(),
            };
            listed.insert(pos, entry);
            proof {
                assert(listed@ == before.insert(pos as int, entry));
                lemma_sum_insert(before, listed_rule_count(), pos as int, entry);
                lemma_sum_insert(before, listed_plugin_count(), pos as int, entry);
                assert(new_prefix.drop_last() =~= old_prefix);
                if analyzer_ids_unique(new_prefix) {
                    assert forall|u: int, v: int| 0 <= u < v < old_prefix.len() implies (
                    #[trigger] old_prefix[u]).identifier@ != (#[trigger] old_prefix[v]).identifier@ by {
                        assert(old_prefix[u] == new_prefix[u]);
                        assert(old_prefix[v] == new_prefix[v]);
                    }
                }
                assert forall|x: int, y: int| 0 <= x < y < listed@.len() implies text_less(
                    #[trigger] listed@[x].identifier@,
                    #[trigger] listed@[y].identifier@,
                ) by {
                    if y < pos {
                    } else if y == pos {
                    } else if x < pos {
                        lemma_text_less_transitive(
                            listed@[x].identifier@,
                            entry.identifier@,
                            listed@[y].identifier@,
                        );
                    } else if x == pos {
                    } else {
                        assert(listed@[x] == before[x - 1]);
                        assert(listed@[y] == before[y - 1]);
                    }
                }
                assert forall|x: int| 0 <= x < listed@.len() implies is_joined_entry(
                    #[trigger] listed@[x],
                    linter@,
                    new_prefix,
                ) by {
                    lemma_analyzer_step(linter@, analyzer@, j as int, listed@[x].identifier@);
                    if x < pos {
                        assert(listed@[x] == before[x]);
                        assert(text_less(before[x].identifier@, extension.identifier@));
                        lemma_text_less_irreflexive(entry.identifier@);
                        assert(is_joined_entry(before[x], linter@, old_prefix));
                    } else if x > pos {
                        assert(listed@[x] == before[x - 1]);
                        assert(text_less(extension.identifier@, before[x - 1].identifier@));
                        lemma_text_less_irreflexive(entry.identifier@);
                        assert(is_joined_entry(before[x - 1], linter@, old_prefix));
                    } else {
                        assert(listed@[x] == entry);
                        if last_linter_index(linter@, entry.identifier@) is Some {
                            assert(is_registered(linter@, old_prefix, entry.identifier@));
                            let w = choose|w: int|
                                0 <= w < before.len() && (#[trigger] before[w].identifier@)
                                    == entry.identifier@;
                            if w < pos {
                                assert(text_less(before[w].identifier@, extension.identifier@));
                            } else {
                                assert(text_less(extension.identifier@, before[w].identifier@));
                            }
                            lemma_text_less_irreflexive(entry.identifier@);
                        }
                    }
                }
                assert forall|id: Seq<char>| is_registered(linter@, new_prefix, id) implies exists|
                    x: int,
                | 0 <= x < listed@.len() && (#[trigger] listed@[x].identifier@) == id by {
                    lemma_analyzer_step(linter@, analyzer@, j as int, id);
                    if id == extension.identifier@ {
                        assert(listed@[pos as int].identifier@ == id);
                    } else {
                        assert(is_registered(linter@, old_prefix, id));
                        let x = choose|x: int|
                            0 <= x < before.len() && (#[trigger] before[x].identifier@) == id;
                        if x < pos {
                            assert(listed@[x].identifier@ == id);
                        } else {
                            assert(listed@[x + 1].identifier@ == id);
                        }
                    }
                }
            }
        }
        j = j + 1;
    }
    assert(analyzer@.take(analyzer@.len() as int) =~= analyzer@);
    Listing { entries: listed }
}

} // verus!
