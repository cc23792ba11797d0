//! Branch-and-bound selection of the syntax families a palette can carry.

use vstd::arithmetic::power2::{
    lemma_pow2_pos, lemma_pow2_strictly_increases, lemma_pow2_unfold, pow2,
};
use vstd::prelude::*;

verus! {

/// One family and the authored source it is colored from; without a source the
/// family follows the foreground's own tone.
#[derive(Clone, Copy, Debug, PartialEq, Eq, Structural)]
pub struct Choice {
    pub family: usize,
    pub source: Option<usize>,
}

/// What a selection is worth; earlier fields decide before later ones.
#[derive(Clone, Copy, Debug, PartialEq, Eq, Structural)]
pub struct SemanticScore {
    pub trunk_count: usize,
    pub hue_cluster_count: usize,
    pub branch_count: usize,
    pub authored_trunk_count: usize,
    pub source_preference: usize,
    pub active_priority: usize,
}

/// The numbers of a [`SemanticScore`].
pub struct ScoreView {
    pub trunk_count: int,
    pub hue_cluster_count: int,
    pub branch_count: int,
    pub authored_trunk_count: int,
    pub source_preference: int,
    pub active_priority: int,
}

impl View for SemanticScore {
    type V = ScoreView;

    open spec fn view(&self) -> ScoreView {
        ScoreView {
            trunk_count: self.trunk_count as int,
            hue_cluster_count: self.hue_cluster_count as int,
            branch_count: self.branch_count as int,
            authored_trunk_count: self.authored_trunk_count as int,
            source_preference: self.source_preference as int,
            active_priority: self.active_priority as int,
        }
    }
}

/// Whether `left` is worth strictly more than `right`.
pub open spec fn exceeds(left: ScoreView, right: ScoreView) -> bool {
    if left.trunk_count != right.trunk_count {
        left.trunk_count > right.trunk_count
    } else if left.hue_cluster_count != right.hue_cluster_count {
        left.hue_cluster_count > right.hue_cluster_count
    } else if left.branch_count != right.branch_count {
        left.branch_count > right.branch_count
    } else if left.authored_trunk_count != right.authored_trunk_count {
        left.authored_trunk_count > right.authored_trunk_count
    } else if left.source_preference != right.source_preference {
        left.source_preference > right.source_preference
    } else {
        left.active_priority > right.active_priority
    }
}

/// Whether no field of `left` is above that of `right`.
spec fn fieldwise_at_most(left: ScoreView, right: ScoreView) -> bool {
    &&& left.trunk_count <= right.trunk_count
    &&& left.hue_cluster_count <= right.hue_cluster_count
    &&& left.branch_count <= right.branch_count
    &&& left.authored_trunk_count <= right.authored_trunk_count
    &&& left.source_preference <= right.source_preference
    &&& left.active_priority <= right.active_priority
}

impl SemanticScore {
    /// Whether this score is worth strictly more than `other`.
    pub fn is_above(self, other: Self) -> (above: bool)
        ensures
            above == exceeds(self@, other@),
    {
        if self.trunk_count != other.trunk_count {
            self.trunk_count > other.trunk_count
        } else if self.hue_cluster_count != other.hue_cluster_count {
            self.hue_cluster_count > other.hue_cluster_count
        } else if self.branch_count != other.branch_count {
            self.branch_count > other.branch_count
        } else if self.authored_trunk_count != other.authored_trunk_count {
            self.authored_trunk_count > other.authored_trunk_count
        } else if self.source_preference != other.source_preference {
            self.source_preference > other.source_preference
        } else {
            self.active_priority > other.active_priority
        }
    }
}

/// The facts the selection is made from. Families are numbered in forest order
/// and sources in evidence order; slot zero of a family stands for no source and
/// slot `s + 1` for source `s`.
pub struct SemanticForest {
    /// The parent of each family; trunks have none.
    pub parents: Vec<Option<usize>>,
    /// The hue cluster of each source; neutral sources have none.
    pub clusters: Vec<Option<usize>>,
    /// How well each source suits each family.
    pub preferences: Vec<Vec<usize>>,
    /// The sources each trunk tries, in order.
    pub roots: Vec<Vec<Option<usize>>>,
    /// Whether a family can be rendered from a slot, above the subdued tone and
    /// apart from the fixed colors.
    pub viable: Vec<Vec<bool>>,
    /// Whether two renderings stand apart, by family and slot of each.
    pub separated: Vec<Vec<bool>>,
}

pub const MAX_FAMILIES: usize = 16;

pub const MAX_SOURCES: usize = 1000;

pub const MAX_PREFERENCE: usize = 10000;

impl SemanticForest {
    pub open spec fn count(&self) -> int {
        self.parents@.len() as int
    }

    pub open spec fn sources(&self) -> int {
        self.clusters@.len() as int
    }

    pub open spec fn slot_of(source: Option<usize>) -> int {
        match source {
            Some(source) => source + 1,
            None => 0,
        }
    }

    pub open spec fn cell(&self, choice: Choice) -> int {
        choice.family * (self.sources() + 1) + Self::slot_of(choice.source)
    }

    /// Whether the tables have the sizes that families and sources call for.
    pub open spec fn wf(&self) -> bool {
        &&& self.count() <= MAX_FAMILIES
        &&& self.sources() <= MAX_SOURCES
        &&& self.preferences@.len() == self.count()
        &&& self.roots@.len() == self.count()
        &&& self.viable@.len() == self.count()
        &&& self.separated@.len() == self.count() * (self.sources() + 1)
        &&& forall|f: int|
            0 <= f < self.count() ==> ((#[trigger] self.parents@[f]) matches Some(parent) ==> parent
                < f)
        &&& forall|s: int|
            0 <= s < self.sources() ==> ((#[trigger] self.clusters@[s]) matches Some(cluster)
                ==> cluster < self.sources())
        &&& forall|f: int|
            0 <= f < self.count() ==> (#[trigger] self.preferences@[f])@.len() == self.sources()
        &&& forall|f: int, s: int|
            0 <= f < self.count() && 0 <= s < self.sources() ==> #[trigger] self.preferences@[f]@[s]
                <= MAX_PREFERENCE
        &&& forall|f: int, k: int|
            0 <= f < self.count() && 0 <= k < self.roots@[f]@.len() ==> ((
            #[trigger] self.roots@[f]@[k]) matches Some(source) ==> source < self.sources())
        &&& forall|f: int|
            0 <= f < self.count() ==> (#[trigger] self.viable@[f])@.len() == self.sources() + 1
        &&& forall|c: int|
            0 <= c < self.separated@.len() ==> (#[trigger] self.separated@[c])@.len()
                == self.separated@.len()
    }

    pub open spec fn is_trunk(&self, family: int) -> bool {
        self.parents@[family] is None
    }

    pub open spec fn in_range(&self, choice: Choice) -> bool {
        &&& choice.family < self.count()
        &&& choice.source matches Some(source) ==> source < self.sources()
    }

    /// Whether `choices` name families below `limit`, in ascending order.
    pub open spec fn ascending(&self, choices: Seq<Choice>, limit: int) -> bool {
        &&& forall|i: int|
            0 <= i < choices.len() ==> self.in_range(#[trigger] choices[i]) && choices[i].family
                < limit
        &&& forall|i: int, j: int|
            0 <= i < j < choices.len() ==> (#[trigger] choices[i]).family < (
            #[trigger] choices[j]).family
    }

    pub open spec fn uses_source(&self, choices: Seq<Choice>, source: int) -> bool {
        exists|i: int|
            0 <= i < choices.len() && self.is_trunk((#[trigger] choices[i]).family as int)
                && choices[i].source == Some(source as usize)
    }

    pub open spec fn choice_cluster(&self, choice: Choice) -> Option<usize> {
        match choice.source {
            Some(source) => self.clusters@[source as int],
            None => None,
        }
    }

    pub open spec fn uses_cluster(&self, choices: Seq<Choice>, cluster: usize) -> bool {
        exists|i: int|
            0 <= i < choices.len() && self.is_trunk((#[trigger] choices[i]).family as int)
                && self.choice_cluster(choices[i]) == Some(cluster)
    }

    /// Whether no chosen trunk uses the source or shares its hue cluster.
    pub open spec fn available(&self, choices: Seq<Choice>, source: int) -> bool {
        &&& 0 <= source < self.sources()
        &&& !self.uses_source(choices, source)
        &&& self.clusters@[source] matches Some(cluster) ==> !self.uses_cluster(choices, cluster)
    }

    pub open spec fn apart(&self, left: Choice, right: Choice) -> bool {
        self.separated@[self.cell(left)]@[self.cell(right)]
    }

    /// Whether `choice` can join `choices`.
    pub open spec fn admits(&self, choices: Seq<Choice>, choice: Choice) -> bool {
        &&& self.viable@[choice.family as int]@[Self::slot_of(choice.source)]
        &&& self.is_trunk(choice.family as int) ==> (choice.source matches Some(source)
            ==> self.available(choices, source as int))
        &&& forall|i: int| 0 <= i < choices.len() ==> self.apart(choice, #[trigger] choices[i])
    }

    /// The sources a family tries: a trunk its roots, a branch the source of its
    /// parent if the parent is chosen.
    pub open spec fn tries(&self, family: int, choices: Seq<Choice>) -> Seq<Option<usize>> {
        match self.parents@[family] {
            None => self.roots@[family]@,
            Some(parent) => if self.chooses(choices, parent) {
                seq![choices[self.index_of(choices, parent)].source]
            } else {
                Seq::empty()
            },
        }
    }

    pub open spec fn chooses(&self, choices: Seq<Choice>, family: usize) -> bool {
        exists|i: int| 0 <= i < choices.len() && (#[trigger] choices[i]).family == family
    }

    pub open spec fn index_of(&self, choices: Seq<Choice>, family: usize) -> int {
        choose|i: int| 0 <= i < choices.len() && (#[trigger] choices[i]).family == family
    }

    pub open spec fn trunks(&self, choices: Seq<Choice>) -> int
        decreases choices.len(),
    {
        if choices.len() == 0 {
            0
        } else {
            self.trunks(choices.drop_last()) + if self.is_trunk(choices.last().family as int) {
                1int
            } else {
                0
            }
        }
    }

    pub open spec fn authored(&self, choices: Seq<Choice>) -> int
        decreases choices.len(),
    {
        if choices.len() == 0 {
            0
        } else {
            self.authored(choices.drop_last()) + if self.is_trunk(choices.last().family as int)
                && choices.last().source is Some {
                1int
            } else {
                0
            }
        }
    }

    pub open spec fn preference(&self, choices: Seq<Choice>) -> int
        decreases choices.len(),
    {
        if choices.len() == 0 {
            0
        } else {
            self.preference(choices.drop_last()) + match choices.last().source {
                Some(source) if self.is_trunk(choices.last().family as int) =>
                    self.preferences@[choices.last().family as int]@[source as int] as int,
                _ => 0,
            }
        }
    }

    pub open spec fn priority(&self, choices: Seq<Choice>) -> int
        decreases choices.len(),
    {
        if choices.len() == 0 {
            0
        } else {
            self.priority(choices.drop_last()) + pow2(
                (self.count() - 1 - choices.last().family) as nat,
            )
        }
    }

    /// The hue clusters that chosen trunks are colored from.
    pub open spec fn trunk_clusters(&self, choices: Seq<Choice>) -> Set<usize>
        decreases choices.len(),
    {
        if choices.len() == 0 {
            Set::empty()
        } else {
            let earlier = self.trunk_clusters(choices.drop_last());
            match self.choice_cluster(choices.last()) {
                Some(cluster) if self.is_trunk(choices.last().family as int) => earlier.insert(
                    cluster,
                ),
                _ => earlier,
            }
        }
    }

    /// What `choices` are worth: more trunks, then more hue clusters among them,
    /// then more branches, more authored trunks, better suited sources and
    /// earlier families.
    pub open spec fn score(&self, choices: Seq<Choice>) -> ScoreView {
        ScoreView {
            trunk_count: self.trunks(choices),
            hue_cluster_count: self.trunk_clusters(choices).len() as int,
            branch_count: choices.len() - self.trunks(choices),
            authored_trunk_count: self.authored(choices),
            source_preference: self.preference(choices),
            active_priority: self.priority(choices),
        }
    }

    pub open spec fn trunks_from(&self, family: int) -> int
        decreases self.count() - family,
    {
        if family >= self.count() {
            0
        } else {
            self.trunks_from(family + 1) + if self.is_trunk(family) {
                1int
            } else {
                0
            }
        }
    }

    /// The best suitability for `family` among the available sources below `end`.
    pub open spec fn best_preference(&self, family: int, choices: Seq<Choice>, end: int) -> int
        decreases end,
    {
        if end <= 0 {
            0
        } else {
            let earlier = self.best_preference(family, choices, end - 1);
            let value = self.preferences@[family]@[end - 1] as int;
            if self.available(choices, end - 1) && value > earlier {
                value
            } else {
                earlier
            }
        }
    }

    pub open spec fn preferences_from(&self, family: int, choices: Seq<Choice>) -> int
        decreases self.count() - family,
    {
        if family >= self.count() {
            0
        } else {
            self.preferences_from(family + 1, choices) + if self.is_trunk(family) {
                self.best_preference(family, choices, self.sources())
            } else {
                0
            }
        }
    }

    pub open spec fn open_neutrals(&self, choices: Seq<Choice>) -> Set<int> {
        Set::new(|source: int| self.available(choices, source) && self.clusters@[source] is None)
    }

    pub open spec fn open_clusters(&self, choices: Seq<Choice>) -> Set<usize> {
        Set::new(
            |cluster: usize|
                exists|source: int|
                    self.available(choices, source) && #[trigger] self.clusters@[source] == Some(
                        cluster,
                    ),
        )
    }

    /// A bound on the worth of every completion of `choices` from `family` on.
    pub open spec fn optimistic(&self, family: int, choices: Seq<Choice>) -> ScoreView {
        let score = self.score(choices);
        let trunks = self.trunks_from(family);
        let hues = self.open_clusters(choices).len() as int;
        let neutrals = self.open_neutrals(choices).len() as int;
        ScoreView {
            trunk_count: score.trunk_count + trunks,
            hue_cluster_count: score.hue_cluster_count + if trunks <= hues { trunks } else { hues },
            branch_count: score.branch_count + (self.count() - family) - trunks,
            authored_trunk_count: score.authored_trunk_count + if trunks <= hues + neutrals {
                trunks
            } else {
                hues + neutrals
            },
            source_preference: score.source_preference + self.preferences_from(family, choices),
            active_priority: pow2(self.count() as nat) - 1,
        }
    }

    /// The better of `best` and every completion of `choices` from `family` on,
    /// found by trying every source and then leaving the family out; the first
    /// of equally worthy ones wins.
    pub open spec fn explored(
        &self,
        family: int,
        choices: Seq<Choice>,
        best: Seq<Choice>,
    ) -> Seq<Choice>
        decreases self.count() - family, self.tries(family, choices).len() + 1,
    {
        if family >= self.count() {
            if exceeds(self.score(choices), self.score(best)) {
                choices
            } else {
                best
            }
        } else {
            let tried = self.explored_sources(family, choices, best, 0);
            self.explored(family + 1, choices, tried)
        }
    }

    pub open spec fn explored_sources(
        &self,
        family: int,
        choices: Seq<Choice>,
        best: Seq<Choice>,
        next: int,
    ) -> Seq<Choice>
        decreases self.count() - family, self.tries(family, choices).len() - next,
    {
        let sources = self.tries(family, choices);
        if family >= self.count() || next < 0 || next >= sources.len() {
            best
        } else {
            let choice = Choice { family: family as usize, source: sources[next] };
            let improved = if self.admits(choices, choice) {
                self.explored(family + 1, choices.push(choice), best)
            } else {
                best
            };
            self.explored_sources(family, choices, improved, next + 1)
        }
    }

    /// Whether `choices` can be built family by family: each choice is tried and
    /// admitted after the earlier ones.
    pub open spec fn buildable(&self, choices: Seq<Choice>) -> bool {
        &&& self.ascending(choices, self.count())
        &&& forall|i: int|
            0 <= i < choices.len() ==> self.tries(
                (#[trigger] choices[i]).family as int,
                choices.take(i),
            ).contains(choices[i].source) && self.admits(choices.take(i), choices[i])
    }

    proof fn lemma_tries_in_range(&self, family: int, choices: Seq<Choice>, next: int)
        requires
            self.wf(),
            0 <= family < self.count(),
            self.ascending(choices, family),
            0 <= next < self.tries(family, choices).len(),
        ensures
            self.tries(family, choices)[next] matches Some(source) ==> source < self.sources(),
    {
        if let Some(parent) = self.parents@[family] {
            assert(self.chooses(choices, parent));
            let at = self.index_of(choices, parent);
            assert(self.in_range(choices[at]));
        } else {
            assert(self.tries(family, choices)[next] == self.roots@[family]@[next]);
        }
    }

    proof fn lemma_push_ascending(&self, choices: Seq<Choice>, choice: Choice)
        requires
            self.ascending(choices, choice.family as int),
            self.in_range(choice),
        ensures
            self.ascending(choices.push(choice), choice.family + 1),
            choices.push(choice).drop_last() == choices,
    {
        assert(choices.push(choice).drop_last() =~= choices);
        let pushed = choices.push(choice);
        assert forall|i: int| 0 <= i < pushed.len() implies self.in_range(#[trigger] pushed[i])
            && pushed[i].family < choice.family + 1 by {
            if i < choices.len() {
                assert(self.in_range(choices[i]));
            }
        }
    }

    proof fn lemma_pushed_use(&self, choices: Seq<Choice>, choice: Choice)
        ensures
            forall|source: int|
                self.uses_source(choices, source) ==> #[trigger] self.uses_source(
                    choices.push(choice),
                    source,
                ),
            forall|cluster: usize|
                self.uses_cluster(choices, cluster) ==> #[trigger] self.uses_cluster(
                    choices.push(choice),
                    cluster,
                ),
            self.is_trunk(choice.family as int) ==> (choice.source matches Some(source)
                ==> self.uses_source(choices.push(choice), source as int)),
            self.is_trunk(choice.family as int) ==> (self.choice_cluster(choice) matches Some(
                cluster,
            ) ==> self.uses_cluster(choices.push(choice), cluster)),
            !self.is_trunk(choice.family as int) ==> forall|source: int|
                self.uses_source(choices, source) == #[trigger] self.uses_source(
                    choices.push(choice),
                    source,
                ),
            !self.is_trunk(choice.family as int) ==> forall|cluster: usize|
                self.uses_cluster(choices, cluster) == #[trigger] self.uses_cluster(
                    choices.push(choice),
                    cluster,
                ),
    {
        let pushed = choices.push(choice);
        assert forall|source: int| self.uses_source(choices, source) implies #[trigger] self.uses_source(
            pushed,
            source,
        ) by {
            let at = choose|i: int|
                0 <= i < choices.len() && self.is_trunk((#[trigger] choices[i]).family as int)
                    && choices[i].source == Some(source as usize);
            assert(pushed[at] == choices[at]);
        }
        assert forall|cluster: usize|
            self.uses_cluster(choices, cluster) implies #[trigger] self.uses_cluster(
            pushed,
            cluster,
        ) by {
            let at = choose|i: int|
                0 <= i < choices.len() && self.is_trunk((#[trigger] choices[i]).family as int)
                    && self.choice_cluster(choices[i]) == Some(cluster);
            assert(pushed[at] == choices[at]);
        }
        assert(pushed[choices.len() as int] == choice);
        if !self.is_trunk(choice.family as int) {
            assert forall|source: int|
                self.uses_source(choices, source) == #[trigger] self.uses_source(
                pushed,
                source,
            ) by {
                if self.uses_source(pushed, source) {
                    let at = choose|i: int|
                        0 <= i < pushed.len() && self.is_trunk((#[trigger] pushed[i]).family as int)
                            && pushed[i].source == Some(source as usize);
                    assert(choices[at] == pushed[at]);
                }
            }
            assert forall|cluster: usize|
                self.uses_cluster(choices, cluster) == #[trigger] self.uses_cluster(
                pushed,
                cluster,
            ) by {
                if self.uses_cluster(pushed, cluster) {
                    let at = choose|i: int|
                        0 <= i < pushed.len() && self.is_trunk((#[trigger] pushed[i]).family as int)
                            && self.choice_cluster(pushed[i]) == Some(cluster);
                    assert(choices[at] == pushed[at]);
                }
            }
        }
    }

    proof fn lemma_open_finite(&self, choices: Seq<Choice>)
        requires
            self.wf(),
        ensures
            self.open_clusters(choices).finite(),
            self.open_neutrals(choices).finite(),
            self.open_clusters(choices).len() <= self.sources(),
            self.open_neutrals(choices).len() <= self.sources(),
    {
        let range = vstd::set_lib::set_int_range(0, self.sources());
        vstd::set_lib::lemma_int_range(0, self.sources());
        assert(self.open_neutrals(choices).subset_of(range));
        vstd::set_lib::lemma_len_subset(self.open_neutrals(choices), range);
        let clusters = self.open_clusters(choices).map(|cluster: usize| cluster as int);
        assert(clusters.subset_of(range)) by {
            assert forall|value: int| clusters.contains(value) implies range.contains(value) by {
                let cluster = choose|cluster: usize|
                    self.open_clusters(choices).contains(cluster) && cluster as int == value;
                let source = choose|source: int|
                    self.available(choices, source) && #[trigger] self.clusters@[source] == Some(
                        cluster,
                    );
                assert(cluster < self.sources());
            }
        }
        vstd::set_lib::lemma_len_subset(clusters, range);
        let ids = vstd::set_lib::set_int_range(0, self.sources()).map(|value: int| value as usize);
        range.lemma_map_finite(|value: int| value as usize);
        assert(self.open_clusters(choices).subset_of(ids)) by {
            assert forall|cluster: usize|
                self.open_clusters(choices).contains(cluster) implies ids.contains(cluster) by {
                let source = choose|source: int|
                    self.available(choices, source) && #[trigger] self.clusters@[source] == Some(
                        cluster,
                    );
                assert(range.contains(cluster as int));
                assert((cluster as int) as usize == cluster);
            }
        }
        vstd::set_lib::lemma_len_subset(self.open_clusters(choices), ids);
        vstd::set_lib::lemma_map_size(
            self.open_clusters(choices),
            clusters,
            |cluster: usize| cluster as int,
        );
    }

    proof fn lemma_trunk_clusters_used(&self, choices: Seq<Choice>)
        ensures
            self.trunk_clusters(choices).finite(),
            self.trunk_clusters(choices).len() <= self.trunks(choices) <= choices.len(),
            0 <= self.authored(choices) <= self.trunks(choices),
            forall|cluster: usize|
                self.trunk_clusters(choices).contains(cluster) <==> self.uses_cluster(
                    choices,
                    cluster,
                ),
        decreases choices.len(),
    {
        if choices.len() > 0 {
            let earlier = choices.drop_last();
            self.lemma_trunk_clusters_used(earlier);
            assert(choices =~= earlier.push(choices.last()));
            self.lemma_pushed_use(earlier, choices.last());
            assert forall|cluster: usize|
                self.trunk_clusters(choices).contains(cluster) <==> self.uses_cluster(
                choices,
                cluster,
            ) by {
                if self.uses_cluster(choices, cluster) {
                    let at = choose|i: int|
                        0 <= i < choices.len() && self.is_trunk(
                            (#[trigger] choices[i]).family as int,
                        ) && self.choice_cluster(choices[i]) == Some(cluster);
                    if at < earlier.len() {
                        assert(earlier[at] == choices[at]);
                        assert(self.uses_cluster(earlier, cluster));
                    }
                }
            }
        }
    }

    proof fn lemma_best_preference(
        &self,
        family: int,
        choices: Seq<Choice>,
        fewer: Seq<Choice>,
        end: int,
    )
        requires
            self.wf(),
            0 <= family < self.count(),
            0 <= end <= self.sources(),
            forall|source: int|
                self.available(fewer, source) ==> #[trigger] self.available(choices, source),
        ensures
            0 <= self.best_preference(family, fewer, end) <= self.best_preference(
                family,
                choices,
                end,
            ) <= MAX_PREFERENCE,
            forall|source: int|
                0 <= source < end && #[trigger] self.available(choices, source)
                    ==> self.preferences@[family]@[source] <= self.best_preference(
                    family,
                    choices,
                    end,
                ),
        decreases end,
    {
        if end > 0 {
            self.lemma_best_preference(family, choices, fewer, end - 1);
            assert(self.preferences@[family]@[end - 1] <= MAX_PREFERENCE);
        }
    }

    proof fn lemma_preferences_shrink(&self, family: int, choices: Seq<Choice>, fewer: Seq<Choice>)
        requires
            self.wf(),
            0 <= family <= self.count(),
            forall|source: int|
                self.available(fewer, source) ==> #[trigger] self.available(choices, source),
        ensures
            0 <= self.preferences_from(family, fewer) <= self.preferences_from(family, choices) <= (
            self.count() - family) * MAX_PREFERENCE,
        decreases self.count() - family,
    {
        if family < self.count() {
            self.lemma_preferences_shrink(family + 1, choices, fewer);
            self.lemma_best_preference(family, choices, fewer, self.sources());
            assert((self.count() - family) * MAX_PREFERENCE == (self.count() - family - 1)
                * MAX_PREFERENCE + MAX_PREFERENCE) by (nonlinear_arith);
        }
    }

    proof fn lemma_trunks_from(&self, family: int)
        requires
            0 <= family <= self.count(),
        ensures
            0 <= self.trunks_from(family) <= self.count() - family,
        decreases self.count() - family,
    {
        if family < self.count() {
            self.lemma_trunks_from(family + 1);
        }
    }

    proof fn lemma_bound_after_skip(&self, family: int, choices: Seq<Choice>)
        requires
            self.wf(),
            0 <= family < self.count(),
        ensures
            fieldwise_at_most(
                self.optimistic(family + 1, choices),
                self.optimistic(family, choices),
            ),
    {
        self.lemma_trunks_from(family + 1);
        self.lemma_preferences_shrink(family + 1, choices, choices);
        self.lemma_best_preference(family, choices, choices, self.sources());
    }

    proof fn lemma_bound_after_push(&self, family: int, choices: Seq<Choice>, choice: Choice)
        requires
            self.wf(),
            0 <= family < self.count(),
            self.ascending(choices, family),
            choice.family == family,
            self.in_range(choice),
            self.admits(choices, choice),
        ensures
            fieldwise_at_most(
                self.optimistic(family + 1, choices.push(choice)),
                self.optimistic(family, choices),
            ),
    {
        let pushed = choices.push(choice);
        self.lemma_push_ascending(choices, choice);
        self.lemma_pushed_use(choices, choice);
        assert(pushed.last() == choice);
        self.lemma_open_finite(choices);
        self.lemma_open_finite(pushed);
        self.lemma_trunk_clusters_used(choices);
        self.lemma_trunk_clusters_used(pushed);
        self.lemma_trunks_from(family + 1);
        assert forall|source: int| self.available(pushed, source) implies #[trigger] self.available(
            choices,
            source,
        ) by {}
        self.lemma_preferences_shrink(family + 1, choices, pushed);
        self.lemma_best_preference(family, choices, choices, self.sources());
        assert(self.open_clusters(pushed).subset_of(self.open_clusters(choices)));
        assert(self.open_neutrals(pushed).subset_of(self.open_neutrals(choices)));
        vstd::set_lib::lemma_len_subset(self.open_clusters(pushed), self.open_clusters(choices));
        vstd::set_lib::lemma_len_subset(self.open_neutrals(pushed), self.open_neutrals(choices));
        if self.is_trunk(family) {
            if let Some(source) = choice.source {
                assert(self.available(choices, source as int));
                match self.clusters@[source as int] {
                    Some(cluster) => {
                        assert(self.open_clusters(choices).contains(cluster));
                        assert(!self.trunk_clusters(choices).contains(cluster));
                        assert(self.open_clusters(pushed).subset_of(
                            self.open_clusters(choices).remove(cluster),
                        )) by {
                            assert forall|other: usize|
                                self.open_clusters(pushed).contains(other) implies self.open_clusters(
                                choices,
                            ).remove(cluster).contains(other) by {
                                let at = choose|at: int|
                                    self.available(pushed, at) && #[trigger] self.clusters@[at]
                                        == Some(other);
                                assert(self.available(choices, at));
                                assert(self.uses_cluster(pushed, cluster));
                            }
                        }
                        vstd::set_lib::lemma_len_subset(
                            self.open_clusters(pushed),
                            self.open_clusters(choices).remove(cluster),
                        );
                    },
                    None => {
                        assert(self.open_neutrals(choices).contains(source as int));
                        assert(self.open_neutrals(pushed).subset_of(
                            self.open_neutrals(choices).remove(source as int),
                        ));
                        vstd::set_lib::lemma_len_subset(
                            self.open_neutrals(pushed),
                            self.open_neutrals(choices).remove(source as int),
                        );
                    },
                }
            }
        }
    }

    proof fn lemma_priority_bound(&self, choices: Seq<Choice>, limit: int)
        requires
            self.ascending(choices, limit),
            0 <= limit <= self.count(),
        ensures
            0 <= self.priority(choices) <= pow2(self.count() as nat) - pow2(
                (self.count() - limit) as nat,
            ),
        decreases choices.len(),
    {
        let count = self.count();
        if choices.len() > 0 {
            let last = choices.last().family as int;
            assert(self.in_range(choices[choices.len() - 1]));
            let earlier = choices.drop_last();
            assert(self.ascending(earlier, last)) by {
                assert forall|i: int| 0 <= i < earlier.len() implies self.in_range(
                    #[trigger] earlier[i],
                ) && earlier[i].family < last by {
                    assert(earlier[i] == choices[i]);
                }
                assert forall|i: int, j: int| 0 <= i < j < earlier.len() implies (
                #[trigger] earlier[i]).family < (#[trigger] earlier[j]).family by {
                    assert(earlier[i] == choices[i] && earlier[j] == choices[j]);
                }
            }
            self.lemma_priority_bound(earlier, last);
            lemma_pow2_unfold((count - last) as nat);
            if count - limit < count - 1 - last {
                lemma_pow2_strictly_increases((count - limit) as nat, (count - 1 - last) as nat);
            }
        } else if limit > 0 {
            lemma_pow2_strictly_increases((count - limit) as nat, count as nat);
        }
    }

    /// A complete selection is worth no more than its bound.
    proof fn lemma_bound_covers(&self, choices: Seq<Choice>)
        requires
            self.wf(),
            self.ascending(choices, self.count()),
        ensures
            fieldwise_at_most(self.score(choices), self.optimistic(self.count(), choices)),
    {
        self.lemma_priority_bound(choices, self.count());
        lemma_pow2_pos(0);
        self.lemma_open_finite(choices);
    }

    /// A search whose bound does not exceed the best score changes nothing.
    proof fn lemma_pruned(&self, family: int, choices: Seq<Choice>, best: Seq<Choice>)
        requires
            self.wf(),
            0 <= family <= self.count(),
            self.ascending(choices, family),
            !exceeds(self.optimistic(family, choices), self.score(best)),
        ensures
            self.explored(family, choices, best) == best,
        decreases self.count() - family, self.tries(family, choices).len() + 1,
    {
        if family >= self.count() {
            self.lemma_bound_covers(choices);
        } else {
            self.lemma_pruned_sources(family, choices, best, 0);
            self.lemma_bound_after_skip(family, choices);
            self.lemma_pruned(family + 1, choices, best);
        }
    }

    proof fn lemma_pruned_sources(
        &self,
        family: int,
        choices: Seq<Choice>,
        best: Seq<Choice>,
        next: int,
    )
        requires
            self.wf(),
            0 <= family < self.count(),
            0 <= next <= self.tries(family, choices).len(),
            self.ascending(choices, family),
            !exceeds(self.optimistic(family, choices), self.score(best)),
        ensures
            self.explored_sources(family, choices, best, next) == best,
        decreases self.count() - family, self.tries(family, choices).len() - next,
    {
        let sources = self.tries(family, choices);
        if next < sources.len() {
            let choice = Choice { family: family as usize, source: sources[next] };
            self.lemma_tries_in_range(family, choices, next);
            if self.admits(choices, choice) {
                self.lemma_bound_after_push(family, choices, choice);
                self.lemma_push_ascending(choices, choice);
                self.lemma_pruned(family + 1, choices.push(choice), best);
            }
            self.lemma_pruned_sources(family, choices, best, next + 1);
        }
    }

    proof fn lemma_explored_ascending(&self, family: int, choices: Seq<Choice>, best: Seq<Choice>)
        requires
            self.wf(),
            0 <= family <= self.count(),
            self.ascending(choices, family),
            self.ascending(best, self.count()),
        ensures
            self.ascending(self.explored(family, choices, best), self.count()),
        decreases self.count() - family, self.tries(family, choices).len() + 1,
    {
        if family < self.count() {
            self.lemma_explored_sources_ascending(family, choices, best, 0);
            self.lemma_explored_ascending(
                family + 1,
                choices,
                self.explored_sources(family, choices, best, 0),
            );
        }
    }

    proof fn lemma_explored_sources_ascending(
        &self,
        family: int,
        choices: Seq<Choice>,
        best: Seq<Choice>,
        next: int,
    )
        requires
            self.wf(),
            0 <= family < self.count(),
            0 <= next <= self.tries(family, choices).len(),
            self.ascending(choices, family),
            self.ascending(best, self.count()),
        ensures
            self.ascending(self.explored_sources(family, choices, best, next), self.count()),
        decreases self.count() - family, self.tries(family, choices).len() - next,
    {
        let sources = self.tries(family, choices);
        if next < sources.len() {
            let choice = Choice { family: family as usize, source: sources[next] };
            self.lemma_tries_in_range(family, choices, next);
            let improved = if self.admits(choices, choice) {
                self.explored(family + 1, choices.push(choice), best)
            } else {
                best
            };
            if self.admits(choices, choice) {
                self.lemma_push_ascending(choices, choice);
                self.lemma_explored_ascending(family + 1, choices.push(choice), best);
            }
            self.lemma_explored_sources_ascending(family, choices, improved, next + 1);
        }
    }

    fn power_of_two(exponent: usize) -> (power: usize)
        requires
            exponent <= MAX_FAMILIES,
        ensures
            power == pow2(exponent as nat),
            power <= 65536,
    {
        let mut power: usize = 1;
        let mut index: usize = 0;
        proof {
            vstd::arithmetic::power2::lemma2_to64();
        }
        while index < exponent
            invariant
                index <= exponent <= MAX_FAMILIES,
                power == pow2(index as nat),
                pow2(16) == 65536,
            decreases exponent - index,
        {
            proof {
                lemma_pow2_unfold((index + 1) as nat);
                if index + 1 < 16 {
                    lemma_pow2_strictly_increases((index + 1) as nat, 16);
                }
            }
            power = 2 * power;
            index += 1;
        }
        proof {
            if exponent < 16 {
                lemma_pow2_strictly_increases(exponent as nat, 16);
            }
        }
        power
    }

    fn contains(values: &Vec<usize>, value: usize) -> (found: bool)
        ensures
            found == values@.contains(value),
    {
        let mut index: usize = 0;
        while index < values.len()
            invariant
                index <= values@.len(),
                forall|i: int| 0 <= i < index ==> values@[i] != value,
            decreases values@.len() - index,
        {
            if values[index] == value {
                assert(values@[index as int] == value);
                return true;
            }
            index += 1;
        }
        false
    }

    proof fn lemma_prefix_ascending(&self, choices: Seq<Choice>, limit: int, end: int)
        requires
            self.ascending(choices, limit),
            0 <= end <= choices.len(),
        ensures
            self.ascending(choices.take(end), limit),
    {
        let prefix = choices.take(end);
        assert forall|i: int| 0 <= i < prefix.len() implies self.in_range(#[trigger] prefix[i])
            && prefix[i].family < limit by {
            assert(prefix[i] == choices[i]);
        }
        assert forall|i: int, j: int| 0 <= i < j < prefix.len() implies (
        #[trigger] prefix[i]).family < (#[trigger] prefix[j]).family by {
            assert(prefix[i] == choices[i] && prefix[j] == choices[j]);
        }
    }

    proof fn lemma_length(&self, choices: Seq<Choice>, limit: int)
        requires
            self.ascending(choices, limit),
            0 <= limit,
        ensures
            choices.len() <= limit,
        decreases choices.len(),
    {
        if choices.len() > 0 {
            let last = choices.last().family as int;
            assert(self.in_range(choices[choices.len() - 1]));
            let earlier = choices.drop_last();
            self.lemma_prefix_ascending(choices, limit, choices.len() - 1);
            assert(earlier =~= choices.take(choices.len() - 1));
            assert forall|i: int| 0 <= i < earlier.len() implies (#[trigger] earlier[i]).family
                < last by {
                assert(earlier[i] == choices[i]);
            }
            self.lemma_length(earlier, last);
        }
    }

    /// What `choices` are worth.
    pub fn semantic_score(&self, choices: &Vec<Choice>) -> (score: SemanticScore)
        requires
            self.wf(),
            self.ascending(choices@, self.count()),
        ensures
            score@ == self.score(choices@),
    {
        let count = self.parents.len();
        let mut trunks: usize = 0;
        let mut authored: usize = 0;
        let mut preference: usize = 0;
        let mut priority: usize = 0;
        let mut seen: Vec<usize> = Vec::new();
        let mut index: usize = 0;
        proof {
            self.lemma_length(choices@, self.count());
            vstd::arithmetic::power2::lemma2_to64();
        }
        assert(seen@.to_set() =~= self.trunk_clusters(choices@.take(0)));
        while index < choices.len()
            invariant
                self.wf(),
                self.ascending(choices@, self.count()),
                count == self.count(),
                index <= choices@.len() <= self.count() <= MAX_FAMILIES,
                trunks == self.trunks(choices@.take(index as int)),
                trunks <= index,
                authored == self.authored(choices@.take(index as int)),
                authored <= index,
                preference == self.preference(choices@.take(index as int)),
                preference <= index * MAX_PREFERENCE,
                priority == self.priority(choices@.take(index as int)),
                pow2(16) == 65536,
                seen@.no_duplicates(),
                seen@.to_set() == self.trunk_clusters(choices@.take(index as int)),
            decreases choices@.len() - index,
        {
            let choice = choices[index];
            let ghost prefix = choices@.take(index as int + 1);
            assert(prefix.drop_last() =~= choices@.take(index as int));
            assert(prefix.last() == choice);
            assert(self.in_range(choice));
            proof {
                self.lemma_prefix_ascending(choices@, self.count(), index as int + 1);
                self.lemma_priority_bound(prefix, self.count());
                if count < 16 {
                    lemma_pow2_strictly_increases(count as nat, 16);
                }
                lemma_pow2_pos(0);
            }
            let power = Self::power_of_two(count - 1 - choice.family);
            priority = priority + power;
            if self.parents[choice.family].is_none() {
                trunks += 1;
                if let Some(source) = choice.source {
                    authored += 1;
                    let value = self.preferences[choice.family][source];
                    assert(self.preferences@[choice.family as int]@[source as int]
                        <= MAX_PREFERENCE);
                    preference = preference + value;
                    if let Some(cluster) = self.clusters[source] {
                        if !Self::contains(&seen, cluster) {
                            let ghost before = seen@;
                            seen.push(cluster);
                            assert(seen@.to_set() =~= before.to_set().insert(cluster)) by {
                                assert forall|other: usize|
                                    before.to_set().insert(cluster).contains(
                                        other,
                                    ) implies seen@.to_set().contains(other) by {
                                    if other == cluster {
                                        assert(seen@[before.len() as int] == cluster);
                                    } else {
                                        let at = choose|i: int|
                                            0 <= i < before.len() && before[i] == other;
                                        assert(seen@[at] == other);
                                    }
                                }
                            }
                        } else {
                            assert(seen@.to_set().insert(cluster) =~= seen@.to_set());
                        }
                    }
                }
            }
            index += 1;
        }
        assert(choices@.take(index as int) =~= choices@);
        proof {
            seen@.unique_seq_to_set();
        }
        SemanticScore {
            trunk_count: trunks,
            hue_cluster_count: seen.len(),
            branch_count: choices.len() - trunks,
            authored_trunk_count: authored,
            source_preference: preference,
            active_priority: priority,
        }
    }

    /// Whether no chosen trunk uses the source or shares its hue cluster.
    fn source_available(&self, choices: &Vec<Choice>, source: usize) -> (free: bool)
        requires
            self.wf(),
            self.ascending(choices@, self.count()),
            source < self.sources(),
        ensures
            free == self.available(choices@, source as int),
    {
        let mut index: usize = 0;
        while index < choices.len()
            invariant
                self.wf(),
                self.ascending(choices@, self.count()),
                source < self.sources(),
                index <= choices@.len(),
                forall|i: int|
                    0 <= i < index && self.is_trunk((#[trigger] choices@[i]).family as int)
                        ==> choices@[i].source != Some(source) && (self.clusters@[source as int]
                        is Some ==> self.choice_cluster(choices@[i])
                        != self.clusters@[source as int]),
            decreases choices@.len() - index,
        {
            let choice = choices[index];
            assert(self.in_range(choices@[index as int]));
            if self.parents[choice.family].is_none() {
                if let Some(other) = choice.source {
                    if other == source {
                        assert(self.uses_source(choices@, source as int));
                        return false;
                    }
                    if let Some(cluster) = self.clusters[source] {
                        if let Some(taken) = self.clusters[other] {
                            if taken == cluster {
                                assert(self.uses_cluster(choices@, cluster));
                                return false;
                            }
                        }
                    }
                }
            }
            index += 1;
        }
        true
    }

    /// Whether a trunk may be colored from `source` next to the chosen trunks. The
    /// foreground's own lineage is shared and always available.
    pub fn root_source_is_available(
        &self,
        choices: &Vec<Choice>,
        source: Option<usize>,
    ) -> (free: bool)
        requires
            self.wf(),
            self.ascending(choices@, self.count()),
            source matches Some(source) ==> source < self.sources(),
        ensures
            free == (source matches Some(source) ==> self.available(choices@, source as int)),
    {
        match source {
            Some(source) => self.source_available(choices, source),
            None => true,
        }
    }

    fn open_counts(&self, choices: &Vec<Choice>) -> (counts: (usize, usize, Vec<bool>))
        requires
            self.wf(),
            self.ascending(choices@, self.count()),
        ensures
            counts.0 == self.open_clusters(choices@).len(),
            counts.1 == self.open_neutrals(choices@).len(),
            counts.2@.len() == self.sources(),
            forall|s: int|
                0 <= s < self.sources() ==> #[trigger] counts.2@[s] == self.available(choices@, s),
    {
        let mut open: Vec<bool> = Vec::new();
        let mut hues: Vec<usize> = Vec::new();
        let mut neutrals: usize = 0;
        let mut source: usize = 0;
        let ghost mut neutral_set: Set<int> = Set::empty();
        assert(hues@.to_set() =~= Set::<usize>::empty());
        while source < self.clusters.len()
            invariant
                self.wf(),
                self.ascending(choices@, self.count()),
                source <= self.sources(),
                open@.len() == source,
                forall|s: int| 0 <= s < source ==> #[trigger] open@[s] == self.available(choices@, s),
                hues@.no_duplicates(),
                forall|cluster: usize|
                    hues@.contains(cluster) <==> exists|s: int|
                        0 <= s < source && self.available(choices@, s)
                            && #[trigger] self.clusters@[s] == Some(cluster),
                neutral_set.finite(),
                neutral_set.len() == neutrals,
                neutrals <= source,
                forall|s: int|
                    #[trigger] neutral_set.contains(s) <==> 0 <= s < source && self.available(
                        choices@,
                        s,
                    ) && self.clusters@[s] is None,
            decreases self.sources() - source,
        {
            let free = self.source_available(choices, source);
            let ghost before = hues@;
            if free {
                match self.clusters[source] {
                    Some(cluster) => {
                        if !Self::contains(&hues, cluster) {
                            hues.push(cluster);
                            assert(hues@[before.len() as int] == cluster);
                            assert forall|other: usize| before.contains(other) implies hues@.contains(
                                other,
                            ) by {
                                let at = choose|i: int| 0 <= i < before.len() && before[i] == other;
                                assert(hues@[at] == other);
                            }
                            assert forall|other: usize| hues@.contains(other) implies before.contains(
                                other,
                            ) || other == cluster by {
                                let at = choose|i: int| 0 <= i < hues@.len() && hues@[i] == other;
                                if at < before.len() {
                                    assert(before[at] == other);
                                }
                            }
                        }
                        assert forall|other: usize|
                            hues@.contains(other) <==> before.contains(other) || other
                                == cluster by {}
                    },
                    None => {
                        neutrals += 1;
                        proof {
                            neutral_set = neutral_set.insert(source as int);
                        }
                    },
                }
            }
            assert forall|cluster: usize|
                hues@.contains(cluster) <==> exists|s: int|
                    0 <= s < source + 1 && self.available(choices@, s)
                        && #[trigger] self.clusters@[s] == Some(cluster) by {
                if exists|s: int|
                    0 <= s < source + 1 && self.available(choices@, s)
                        && #[trigger] self.clusters@[s] == Some(cluster) {
                    let at = choose|s: int|
                        0 <= s < source + 1 && self.available(choices@, s)
                            && #[trigger] self.clusters@[s] == Some(cluster);
                    if at < source {
                        assert(before.contains(cluster));
                    }
                }
                if hues@.contains(cluster) && !before.contains(cluster) {
                    assert(self.clusters@[source as int] == Some(cluster));
                }
            }
            open.push(free);
            source += 1;
        }
        assert(hues@.to_set() =~= self.open_clusters(choices@)) by {
            assert forall|cluster: usize|
                hues@.to_set().contains(cluster) <==> self.open_clusters(choices@).contains(
                    cluster,
                ) by {
                if self.open_clusters(choices@).contains(cluster) {
                    let at = choose|s: int|
                        self.available(choices@, s) && #[trigger] self.clusters@[s] == Some(cluster);
                    assert(0 <= at < self.sources());
                    assert(hues@.contains(cluster));
                }
            }
        }
        assert(neutral_set =~= self.open_neutrals(choices@));
        proof {
            hues@.unique_seq_to_set();
        }
        (hues.len(), neutrals, open)
    }

    fn best_open_preference(
        &self,
        family: usize,
        open: &Vec<bool>,
        choices: &Vec<Choice>,
    ) -> (best: usize)
        requires
            self.wf(),
            family < self.count(),
            open@.len() == self.sources(),
            forall|s: int|
                0 <= s < self.sources() ==> #[trigger] open@[s] == self.available(choices@, s),
        ensures
            best == self.best_preference(family as int, choices@, self.sources()),
    {
        let mut best: usize = 0;
        let mut source: usize = 0;
        while source < open.len()
            invariant
                self.wf(),
                family < self.count(),
                open@.len() == self.sources(),
                source <= open@.len(),
                forall|s: int|
                    0 <= s < self.sources() ==> #[trigger] open@[s] == self.available(choices@, s),
                best == self.best_preference(family as int, choices@, source as int),
            decreases open@.len() - source,
        {
            assert(self.preferences@[family as int]@.len() == self.sources());
            let value = self.preferences[family][source];
            if open[source] && value > best {
                best = value;
            }
            source += 1;
        }
        best
    }

    /// A bound on the worth of every completion of `choices` from `family` on.
    pub fn optimistic_semantic_score(
        &self,
        family: usize,
        choices: &Vec<Choice>,
    ) -> (score: SemanticScore)
        requires
            self.wf(),
            family <= self.count(),
            self.ascending(choices@, family as int),
        ensures
            score@ == self.optimistic(family as int, choices@),
    {
        proof {
            assert(self.ascending(choices@, self.count()));
            self.lemma_length(choices@, self.count());
            self.lemma_trunk_clusters_used(choices@);
            self.lemma_open_finite(choices@);
            self.lemma_preference_bound(choices@);
            lemma_pow2_pos(self.count() as nat);
        }
        let score = self.semantic_score(choices);
        let (hues, neutrals, open) = self.open_counts(choices);
        let count = self.parents.len();
        let mut trunks: usize = 0;
        let mut preference: usize = 0;
        let mut next: usize = count;
        while next > family
            invariant
                self.wf(),
                count == self.count(),
                family <= next <= count,
                open@.len() == self.sources(),
                forall|s: int|
                    0 <= s < self.sources() ==> #[trigger] open@[s] == self.available(choices@, s),
                trunks == self.trunks_from(next as int),
                trunks <= count - next,
                preference == self.preferences_from(next as int, choices@),
                preference <= (count - next) * MAX_PREFERENCE,
            decreases next,
        {
            next -= 1;
            if self.parents[next].is_none() {
                trunks += 1;
                proof {
                    self.lemma_best_preference(next as int, choices@, choices@, self.sources());
                }
                let best = self.best_open_preference(next, &open, choices);
                preference = preference + best;
            }
        }
        let capped = |limit: usize| -> (least: usize)
            ensures
                least == if trunks <= limit { trunks } else { limit },
            {
                if trunks <= limit {
                    trunks
                } else {
                    limit
                }
            };
        SemanticScore {
            trunk_count: score.trunk_count + trunks,
            hue_cluster_count: score.hue_cluster_count + capped(hues),
            branch_count: score.branch_count + (count - family) - trunks,
            authored_trunk_count: score.authored_trunk_count + capped(hues + neutrals),
            source_preference: score.source_preference + preference,
            active_priority: Self::power_of_two(count) - 1,
        }
    }

    proof fn lemma_preference_bound(&self, choices: Seq<Choice>)
        requires
            self.wf(),
            self.ascending(choices, self.count()),
        ensures
            0 <= self.preference(choices) <= choices.len() * MAX_PREFERENCE,
        decreases choices.len(),
    {
        if choices.len() > 0 {
            let earlier = choices.drop_last();
            self.lemma_prefix_ascending(choices, self.count(), choices.len() - 1);
            assert(earlier =~= choices.take(choices.len() - 1));
            self.lemma_preference_bound(earlier);
            assert(self.in_range(choices[choices.len() - 1]));
            if let Some(source) = choices.last().source {
                assert(self.preferences@[choices.last().family as int]@[source as int]
                    <= MAX_PREFERENCE);
            }
        }
    }

    fn admits_choice(&self, choices: &Vec<Choice>, choice: Choice) -> (admitted: bool)
        requires
            self.wf(),
            self.ascending(choices@, self.count()),
            self.in_range(choice),
        ensures
            admitted == self.admits(choices@, choice),
    {
        assert(self.viable@[choice.family as int]@.len() == self.sources() + 1);
        let slot: usize = match choice.source {
            Some(source) => source + 1,
            None => 0,
        };
        if !self.viable[choice.family][slot] {
            return false;
        }
        if self.parents[choice.family].is_none() && !self.root_source_is_available(
            choices,
            choice.source,
        ) {
            return false;
        }
        let cell = self.cell_index(choice);
        let mut index: usize = 0;
        while index < choices.len()
            invariant
                self.wf(),
                self.ascending(choices@, self.count()),
                self.in_range(choice),
                cell == self.cell(choice),
                cell < self.separated@.len(),
                index <= choices@.len(),
                forall|i: int| 0 <= i < index ==> self.apart(choice, #[trigger] choices@[i]),
            decreases choices@.len() - index,
        {
            assert(self.in_range(choices@[index as int]));
            let other = self.cell_index(choices[index]);
            assert(self.separated@[cell as int]@.len() == self.separated@.len());
            if !self.separated[cell][other] {
                assert(!self.apart(choice, choices@[index as int]));
                return false;
            }
            index += 1;
        }
        true
    }

    fn cell_index(&self, choice: Choice) -> (cell: usize)
        requires
            self.wf(),
            self.in_range(choice),
        ensures
            cell == self.cell(choice),
            cell < self.separated@.len(),
    {
        let width = self.clusters.len() + 1;
        proof {
            let family = choice.family as int;
            let slot = Self::slot_of(choice.source);
            assert(family * width + slot < self.count() * width) by (nonlinear_arith)
                requires
                    0 <= family < self.count(),
                    0 <= slot < width,
            ;
            assert(self.count() * width <= 16 * 1001) by (nonlinear_arith)
                requires
                    0 <= self.count() <= 16,
                    0 <= width <= 1001,
            ;
            assert(0 <= family * width) by (nonlinear_arith)
                requires
                    0 <= family,
                    0 <= width,
            ;
        }
        choice.family * width + match choice.source {
            Some(source) => source + 1,
            None => 0,
        }
    }

    fn sources_for(&self, family: usize, choices: &Vec<Choice>) -> (sources: Vec<Option<usize>>)
        requires
            self.wf(),
            family < self.count(),
            self.ascending(choices@, family as int),
        ensures
            sources@ == self.tries(family as int, choices@),
    {
        let mut sources: Vec<Option<usize>> = Vec::new();
        match self.parents[family] {
            None => {
                let roots = &self.roots[family];
                let mut index: usize = 0;
                while index < roots.len()
                    invariant
                        index <= roots@.len(),
                        sources@ == roots@.take(index as int),
                    decreases roots@.len() - index,
                {
                    sources.push(roots[index]);
                    index += 1;
                    assert(sources@ =~= roots@.take(index as int));
                }
                assert(sources@ =~= roots@);
            },
            Some(parent) => {
                let mut index: usize = 0;
                while index < choices.len()
                    invariant
                        self.ascending(choices@, family as int),
                        self.parents@[family as int] == Some(parent),
                        index <= choices@.len(),
                        sources@.len() == 0,
                        forall|i: int| 0 <= i < index ==> (#[trigger] choices@[i]).family != parent,
                    decreases choices@.len() - index,
                {
                    if choices[index].family == parent {
                        assert(self.chooses(choices@, parent));
                        let ghost at = self.index_of(choices@, parent);
                        assert(at == index) by {
                            if at < index {
                                assert(choices@[at].family < choices@[index as int].family);
                            } else if at > index {
                                assert(choices@[index as int].family < choices@[at].family);
                            }
                        }
                        sources.push(choices[index].source);
                        assert(sources@ =~= self.tries(family as int, choices@));
                        return sources;
                    }
                    index += 1;
                }
                assert(!self.chooses(choices@, parent));
                assert(sources@ =~= self.tries(family as int, choices@));
            },
        }
        sources
    }

    /// Improves `best` by every completion of `choices` from `family` on. With
    /// `prune`, completions that cannot beat `best` are not visited; the outcome
    /// is the same either way.
    pub fn search_semantic_forest(
        &self,
        family: usize,
        choices: &mut Vec<Choice>,
        best: &mut Vec<Choice>,
        prune: bool,
    )
        requires
            self.wf(),
            family <= self.count(),
            self.ascending(old(choices)@, family as int),
            self.ascending(old(best)@, self.count()),
        ensures
            final(choices)@ == old(choices)@,
            final(best)@ == self.explored(family as int, old(choices)@, old(best)@),
            self.ascending(final(best)@, self.count()),
        decreases self.count() - family,
    {
        let ghost start = choices@;
        let ghost initial = best@;
        proof {
            self.lemma_explored_ascending(family as int, start, initial);
        }
        if family == self.parents.len() {
            let score = self.semantic_score(choices);
            if score.is_above(self.semantic_score(best)) {
                best.clear();
                let mut index: usize = 0;
                while index < choices.len()
                    invariant
                        index <= choices@.len(),
                        best@ == choices@.take(index as int),
                    decreases choices@.len() - index,
                {
                    best.push(choices[index]);
                    index += 1;
                    assert(best@ =~= choices@.take(index as int));
                }
                assert(best@ =~= choices@);
            }
            return;
        }
        if prune {
            let bound = self.optimistic_semantic_score(family, choices);
            if !bound.is_above(self.semantic_score(best)) {
                proof {
                    self.lemma_pruned(family as int, start, initial);
                }
                return;
            }
        }
        let sources = self.sources_for(family, choices);
        let mut next: usize = 0;
        let ghost target = self.explored_sources(family as int, start, initial, 0);
        while next < sources.len()
            invariant
                self.wf(),
                family < self.count(),
                self.ascending(start, family as int),
                sources@ == self.tries(family as int, start),
                next <= sources@.len(),
                choices@ == start,
                self.ascending(best@, self.count()),
                target == self.explored_sources(family as int, start, best@, next as int),
            decreases sources@.len() - next,
        {
            let choice = Choice { family, source: sources[next] };
            proof {
                self.lemma_tries_in_range(family as int, start, next as int);
            }
            if self.admits_choice(choices, choice) {
                proof {
                    self.lemma_push_ascending(start, choice);
                }
                choices.push(choice);
                self.search_semantic_forest(family + 1, choices, best, prune);
                choices.pop();
                assert(choices@ =~= start);
            }
            next += 1;
        }
        self.search_semantic_forest(family + 1, choices, best, prune);
    }

    /// The selection worth most, the first of equally worthy ones.
    pub fn best_selection(&self, prune: bool) -> (best: Vec<Choice>)
        requires
            self.wf(),
        ensures
            best@ == self.explored(0, Seq::empty(), Seq::empty()),
            self.ascending(best@, self.count()),
    {
        let mut choices: Vec<Choice> = Vec::new();
        let mut best: Vec<Choice> = Vec::new();
        self.search_semantic_forest(0, &mut choices, &mut best, prune);
        best
    }

    proof fn lemma_explored_improves(&self, family: int, choices: Seq<Choice>, best: Seq<Choice>)
        ensures
            !exceeds(self.score(best), self.score(self.explored(family, choices, best))),
        decreases self.count() - family, self.tries(family, choices).len() + 1,
    {
        if family < self.count() {
            self.lemma_explored_sources_improves(family, choices, best, 0);
            self.lemma_explored_improves(
                family + 1,
                choices,
                self.explored_sources(family, choices, best, 0),
            );
        }
    }

    proof fn lemma_explored_sources_improves(
        &self,
        family: int,
        choices: Seq<Choice>,
        best: Seq<Choice>,
        next: int,
    )
        ensures
            !exceeds(
                self.score(best),
                self.score(self.explored_sources(family, choices, best, next)),
            ),
        decreases self.count() - family, self.tries(family, choices).len() - next,
    {
        let sources = self.tries(family, choices);
        if family < self.count() && 0 <= next < sources.len() {
            let choice = Choice { family: family as usize, source: sources[next] };
            let improved = if self.admits(choices, choice) {
                self.explored(family + 1, choices.push(choice), best)
            } else {
                best
            };
            if self.admits(choices, choice) {
                self.lemma_explored_improves(family + 1, choices.push(choice), best);
            }
            self.lemma_explored_sources_improves(family, choices, improved, next + 1);
        }
    }

    /// Whether `whole` starts with `choices` and goes on with families from
    /// `family` on.
    spec fn completes(&self, choices: Seq<Choice>, family: int, whole: Seq<Choice>) -> bool {
        &&& choices.len() <= whole.len()
        &&& whole.take(choices.len() as int) == choices
        &&& forall|i: int|
            choices.len() <= i < whole.len() ==> (#[trigger] whole[i]).family >= family
    }

    #[verifier::spinoff_prover]
    #[verifier::rlimit(60)]
    proof fn lemma_explored_covers(
        &self,
        family: int,
        choices: Seq<Choice>,
        best: Seq<Choice>,
        whole: Seq<Choice>,
    )
        requires
            self.wf(),
            0 <= family <= self.count(),
            self.buildable(whole),
            self.completes(choices, family, whole),
        ensures
            !exceeds(self.score(whole), self.score(self.explored(family, choices, best))),
        decreases self.count() - family, self.tries(family, choices).len() + 1,
    {
        if family >= self.count() {
            if whole.len() > choices.len() {
                assert(self.in_range(whole[choices.len() as int]));
            }
            assert(whole =~= choices);
        } else {
            let tried = self.explored_sources(family, choices, best, 0);
            let at = choices.len() as int;
            if at < whole.len() && whole[at].family == family {
                assert(whole.take(at) == choices);
                assert(self.tries(whole[at].family as int, whole.take(at)).contains(
                    whole[at].source,
                ));
                let next = choose|next: int|
                    0 <= next < self.tries(family, choices).len() && self.tries(
                        family,
                        choices,
                    )[next] == whole[at].source;
                self.lemma_sources_cover(family, choices, best, 0, next, whole);
                self.lemma_explored_improves(family + 1, choices, tried);
            } else {
                assert(self.completes(choices, family + 1, whole)) by {
                    assert forall|i: int| choices.len() <= i < whole.len() implies (
                    #[trigger] whole[i]).family >= family + 1 by {
                        if i > at {
                            assert(whole[at].family < whole[i].family);
                        }
                    }
                }
                self.lemma_explored_covers(family + 1, choices, tried, whole);
            }
        }
    }

    proof fn lemma_sources_cover(
        &self,
        family: int,
        choices: Seq<Choice>,
        best: Seq<Choice>,
        next: int,
        target: int,
        whole: Seq<Choice>,
    )
        requires
            self.wf(),
            0 <= family < self.count(),
            self.buildable(whole),
            self.completes(choices, family, whole),
            choices.len() < whole.len(),
            whole[choices.len() as int].family == family,
            0 <= next <= target < self.tries(family, choices).len(),
            self.tries(family, choices)[target] == whole[choices.len() as int].source,
        ensures
            !exceeds(
                self.score(whole),
                self.score(self.explored_sources(family, choices, best, next)),
            ),
        decreases self.count() - family, self.tries(family, choices).len() - next,
    {
        let sources = self.tries(family, choices);
        let choice = Choice { family: family as usize, source: sources[next] };
        let improved = if self.admits(choices, choice) {
            self.explored(family + 1, choices.push(choice), best)
        } else {
            best
        };
        if next == target {
            let at = choices.len() as int;
            assert(whole[at] == choice);
            assert(whole.take(at) == choices);
            assert(self.admits(whole.take(at), whole[at]));
            let extended = choices.push(choice);
            assert(whole.take(at + 1) =~= extended);
            assert(self.completes(extended, family + 1, whole)) by {
                assert forall|i: int| extended.len() <= i < whole.len() implies (
                #[trigger] whole[i]).family >= family + 1 by {
                    assert(whole[at].family < whole[i].family);
                }
            }
            self.lemma_explored_covers(family + 1, extended, best, whole);
            self.lemma_explored_sources_improves(family, choices, improved, next + 1);
        } else {
            self.lemma_sources_cover(family, choices, improved, next + 1, target, whole);
        }
    }

    /// No selection that can be built is worth more than the one found.
    pub proof fn lemma_selection_is_optimal(&self, whole: Seq<Choice>)
        requires
            self.wf(),
            self.buildable(whole),
        ensures
            !exceeds(
                self.score(whole),
                self.score(self.explored(0, Seq::empty(), Seq::empty())),
            ),
    {
        assert(whole.take(0) =~= Seq::<Choice>::empty());
        self.lemma_explored_covers(0, Seq::empty(), Seq::empty(), whole);
    }

    proof fn lemma_explored_buildable(&self, family: int, choices: Seq<Choice>, best: Seq<Choice>)
        requires
            self.wf(),
            0 <= family <= self.count(),
            self.ascending(choices, family),
            self.buildable(choices),
            self.buildable(best),
        ensures
            self.buildable(self.explored(family, choices, best)),
        decreases self.count() - family, self.tries(family, choices).len() + 1,
    {
        if family < self.count() {
            self.lemma_explored_sources_buildable(family, choices, best, 0);
            self.lemma_explored_buildable(
                family + 1,
                choices,
                self.explored_sources(family, choices, best, 0),
            );
        }
    }

    proof fn lemma_explored_sources_buildable(
        &self,
        family: int,
        choices: Seq<Choice>,
        best: Seq<Choice>,
        next: int,
    )
        requires
            self.wf(),
            0 <= family < self.count(),
            0 <= next <= self.tries(family, choices).len(),
            self.ascending(choices, family),
            self.buildable(choices),
            self.buildable(best),
        ensures
            self.buildable(self.explored_sources(family, choices, best, next)),
        decreases self.count() - family, self.tries(family, choices).len() - next,
    {
        let sources = self.tries(family, choices);
        if next < sources.len() {
            let choice = Choice { family: family as usize, source: sources[next] };
            self.lemma_tries_in_range(family, choices, next);
            let improved = if self.admits(choices, choice) {
                self.explored(family + 1, choices.push(choice), best)
            } else {
                best
            };
            if self.admits(choices, choice) {
                let extended = choices.push(choice);
                self.lemma_push_ascending(choices, choice);
                assert(self.buildable(extended)) by {
                    assert forall|i: int| 0 <= i < extended.len() implies self.tries(
                        (#[trigger] extended[i]).family as int,
                        extended.take(i),
                    ).contains(extended[i].source) && self.admits(extended.take(i), extended[i]) by {
                        assert(extended.take(i) =~= choices.take(i));
                        if i < choices.len() {
                            assert(extended[i] == choices[i]);
                        } else {
                            assert(choices.take(i) =~= choices);
                        }
                    }
                }
                self.lemma_explored_buildable(family + 1, extended, best);
            }
            self.lemma_explored_sources_buildable(family, choices, improved, next + 1);
        }
    }

    /// The selection found can be built: its trunks use different sources of
    /// different hue clusters, and its colors stand apart.
    pub proof fn lemma_selection_is_buildable(&self)
        requires
            self.wf(),
        ensures
            self.buildable(self.explored(0, Seq::empty(), Seq::empty())),
    {
        assert(self.buildable(Seq::empty()));
        self.lemma_explored_buildable(0, Seq::empty(), Seq::empty());
    }

    /// Whether two forests state the same facts.
    pub open spec fn states_same(&self, other: &SemanticForest) -> bool {
        &&& self.parents@ == other.parents@
        &&& self.clusters@ == other.clusters@
        &&& self.separated@.len() == other.separated@.len()
        &&& forall|f: int|
            0 <= f < self.count() ==> (#[trigger] self.preferences@[f])@ == other.preferences@[f]@
        &&& forall|f: int|
            0 <= f < self.count() ==> (#[trigger] self.roots@[f])@ == other.roots@[f]@
        &&& forall|f: int|
            0 <= f < self.count() ==> (#[trigger] self.viable@[f])@ == other.viable@[f]@
        &&& forall|c: int|
            0 <= c < self.separated@.len() ==> (#[trigger] self.separated@[c])@
                == other.separated@[c]@
    }

    proof fn lemma_cell_in_range(&self, choice: Choice)
        requires
            self.wf(),
            self.in_range(choice),
        ensures
            0 <= self.cell(choice) < self.separated@.len(),
    {
        let width = self.sources() + 1;
        let family = choice.family as int;
        assert(family * width + width <= self.count() * width) by (nonlinear_arith)
            requires
                family + 1 <= self.count(),
                width > 0,
        ;
        assert(family * width >= 0) by (nonlinear_arith)
            requires
                family >= 0,
                width > 0,
        ;
    }

    proof fn lemma_same_score(&self, other: &SemanticForest, choices: Seq<Choice>)
        requires
            self.states_same(other),
            forall|i: int| 0 <= i < choices.len() ==> self.in_range(#[trigger] choices[i]),
        ensures
            self.score(choices) == other.score(choices),
        decreases choices.len(),
    {
        if choices.len() > 0 {
            let earlier = choices.drop_last();
            assert forall|i: int| 0 <= i < earlier.len() implies self.in_range(
                #[trigger] earlier[i],
            ) by {
                assert(earlier[i] == choices[i]);
            }
            self.lemma_same_score(other, earlier);
            assert(self.in_range(choices[choices.len() - 1]));
            let last = choices.last();
            assert(self.preferences@[last.family as int]@ == other.preferences@[last.family as int]@);
            assert(self.score(earlier) == other.score(earlier));
            assert(self.trunks(earlier) == other.trunks(earlier));
            assert(self.trunk_clusters(choices) == other.trunk_clusters(choices)) by {
                self.lemma_same_clusters(other, choices);
            }
        }
    }

    proof fn lemma_same_clusters(&self, other: &SemanticForest, choices: Seq<Choice>)
        requires
            self.states_same(other),
        ensures
            self.trunk_clusters(choices) == other.trunk_clusters(choices),
        decreases choices.len(),
    {
        if choices.len() > 0 {
            self.lemma_same_clusters(other, choices.drop_last());
        }
    }

    proof fn lemma_same_admission(
        &self,
        other: &SemanticForest,
        choices: Seq<Choice>,
        choice: Choice,
    )
        requires
            self.wf(),
            self.states_same(other),
            self.in_range(choice),
            forall|i: int| 0 <= i < choices.len() ==> self.in_range(#[trigger] choices[i]),
        ensures
            self.admits(choices, choice) == other.admits(choices, choice),
    {
        assert(self.viable@[choice.family as int]@ == other.viable@[choice.family as int]@);
        assert forall|source: int| #[trigger] self.available(choices, source) == other.available(
            choices,
            source,
        ) by {
            assert(self.uses_source(choices, source) == other.uses_source(choices, source));
            if 0 <= source < self.sources() {
                if let Some(cluster) = self.clusters@[source] {
                    assert(self.uses_cluster(choices, cluster) == other.uses_cluster(
                        choices,
                        cluster,
                    ));
                }
            }
        }
        if let Some(source) = choice.source {
            assert(self.available(choices, source as int) == other.available(
                choices,
                source as int,
            ));
        }
        assert forall|i: int| 0 <= i < choices.len() implies self.apart(
            choice,
            #[trigger] choices[i],
        ) == other.apart(choice, choices[i]) by {
            self.lemma_cell_in_range(choice);
            self.lemma_cell_in_range(choices[i]);
            assert(self.separated@[self.cell(choice)]@ == other.separated@[self.cell(choice)]@);
        }
    }

    proof fn lemma_same_exploration(
        &self,
        other: &SemanticForest,
        family: int,
        choices: Seq<Choice>,
        best: Seq<Choice>,
    )
        requires
            self.wf(),
            self.states_same(other),
            0 <= family <= self.count(),
            self.ascending(choices, family),
            self.ascending(best, self.count()),
        ensures
            self.explored(family, choices, best) == other.explored(family, choices, best),
        decreases self.count() - family, self.tries(family, choices).len() + 1,
    {
        if family < self.count() {
            self.lemma_same_sources(other, family, choices, best, 0);
            self.lemma_explored_sources_ascending(family, choices, best, 0);
            self.lemma_same_exploration(
                other,
                family + 1,
                choices,
                self.explored_sources(family, choices, best, 0),
            );
        } else {
            self.lemma_same_score(other, choices);
            self.lemma_same_score(other, best);
        }
    }

    proof fn lemma_same_sources(
        &self,
        other: &SemanticForest,
        family: int,
        choices: Seq<Choice>,
        best: Seq<Choice>,
        next: int,
    )
        requires
            self.wf(),
            self.states_same(other),
            0 <= family < self.count(),
            0 <= next <= self.tries(family, choices).len(),
            self.ascending(choices, family),
            self.ascending(best, self.count()),
        ensures
            self.explored_sources(family, choices, best, next) == other.explored_sources(
                family,
                choices,
                best,
                next,
            ),
        decreases self.count() - family, self.tries(family, choices).len() - next,
    {
        let sources = self.tries(family, choices);
        assert(self.roots@[family]@ == other.roots@[family]@);
        assert(other.tries(family, choices) == sources);
        if next < sources.len() {
            let choice = Choice { family: family as usize, source: sources[next] };
            self.lemma_tries_in_range(family, choices, next);
            self.lemma_same_admission(other, choices, choice);
            let improved = if self.admits(choices, choice) {
                self.explored(family + 1, choices.push(choice), best)
            } else {
                best
            };
            if self.admits(choices, choice) {
                self.lemma_push_ascending(choices, choice);
                self.lemma_same_exploration(other, family + 1, choices.push(choice), best);
                self.lemma_explored_ascending(family + 1, choices.push(choice), best);
            }
            self.lemma_same_sources(other, family, choices, improved, next + 1);
        }
    }

    /// Forests that state the same facts lead to the same selection.
    pub proof fn lemma_same_facts_same_selection(&self, other: &SemanticForest)
        requires
            self.wf(),
            self.states_same(other),
        ensures
            self.explored(0, Seq::empty(), Seq::empty()) == other.explored(
                0,
                Seq::empty(),
                Seq::empty(),
            ),
    {
        self.lemma_same_exploration(other, 0, Seq::empty(), Seq::empty());
    }
}

} // verus!
