//! Routing predictions to the model of a territory.

pub mod laws;

use crate::data_pipeline::Mappings;
use crate::ids::{
    id_count, id_entries, id_get, id_insert, id_keys, id_remove, new_id_map, texts,
};
use crate::models::{kind_name, kind_suffix, ModelError, ModelInput, ModelKind, RecModel};
use crate::order::comparable;
use crate::text::{join, joined};
use crate::top_k::{candidate_scores, index_set, select_top_k};
use ahash::AHashMap;
use vstd::prelude::*;

verus! {

/// The best `top_k` items that were not interacted with: descending score, equal scores in ascending
/// item index.
pub fn filter_sort_top_k<T: PartialOrd + Copy>(
    scores: Vec<T>,
    interacted: &[usize],
    top_k: usize,
) -> (ranked: Vec<(usize, T)>)
    requires
        comparable(candidate_scores(scores@, interacted@.to_set())),
    ensures
        ranked@ == crate::top_k::top_k(scores@, interacted@.to_set(), top_k),
{
    let interacted_set = index_set(interacted);
    select_top_k(&scores, &interacted_set, top_k)
}

/// Why a registry gave no prediction.
pub enum ServingError {
    /// No model serves the territory, and there is no fallback.
    UnknownTerritory { territory: String },
    /// The territory's model is of another kind than the method is for.
    WrongKind { territory: String, wanted: ModelKind, found: ModelKind },
    /// The model itself refused.
    Model(ModelError),
}

/// The text of a serving error.
pub open spec fn serving_message(error: ServingError) -> Seq<char> {
    match error {
        ServingError::UnknownTerritory { territory } => "No model registered for territory '"@
            + territory@ + "' (and no fallback available)"@,
        ServingError::WrongKind { territory, wanted, found } => "predict_top_k_"@ + kind_suffix(
            wanted,
        ) + " called on territory '"@ + territory@ + "', but the registered model is "@ + kind_name(
            found,
        ) + ". Use predict_top_k_"@ + kind_suffix(found) + " instead."@,
        ServingError::Model(error) => error.message@,
    }
}

impl ServingError {
    /// A description for the caller.
    pub fn message(&self) -> (text: String)
        ensures
            text@ == serving_message(*self),
    {
        match self {
            ServingError::UnknownTerritory { territory } => {
                let parts: [&str; 3] = [
                    "No model registered for territory '",
                    territory.as_str(),
                    "' (and no fallback available)",
                ];
                proof {
                    reveal_with_fuel(joined, 4);
                    assert(joined(parts@) =~= serving_message(*self));
                }
                join(&parts)
            },
            ServingError::WrongKind { territory, wanted, found } => {
                let parts: [&str; 9] = [
                    "predict_top_k_",
                    wanted.method_suffix(),
                    " called on territory '",
                    territory.as_str(),
                    "', but the registered model is ",
                    found.name(),
                    ". Use predict_top_k_",
                    found.method_suffix(),
                    " instead.",
                ];
                proof {
                    reveal_with_fuel(joined, 10);
                    assert(joined(parts@) =~= serving_message(*self));
                }
                join(&parts)
            },
            ServingError::Model(error) => error.message.clone(),
        }
    }
}

/// What a registry holds.
pub struct RegistryView<M> {
    /// The model of each territory.
    pub models: Map<Seq<char>, M>,
    /// The territory whose model serves all others.
    pub fallback: Option<Seq<char>>,
}

/// Models by territory, with an optional fallback territory.
pub struct ModelRegistry<M> {
    /// The slot of each territory's model.
    slots: AHashMap<String, usize>,
    models: Vec<Option<M>>,
    fallback_territory: Option<String>,
}

impl<M> ModelRegistry<M> {
    /// Every territory has a slot of its own, which holds a model.
    pub closed spec fn wf(&self) -> bool {
        let slots = id_entries(self.slots);
        &&& forall|t: Seq<char>|
            #[trigger] slots.dom().contains(t) ==> slots[t] < self.models@.len()
                && self.models@[slots[t] as int] is Some
        &&& forall|s: Seq<char>, t: Seq<char>|
            #[trigger] slots.dom().contains(s) && #[trigger] slots.dom().contains(t) && s != t
                ==> slots[s] != slots[t]
    }

    /// The models by territory and the fallback territory.
    pub closed spec fn view(&self) -> RegistryView<M> {
        let slots = id_entries(self.slots);
        RegistryView {
            models: Map::new(
                |t: Seq<char>| slots.dom().contains(t),
                |t: Seq<char>| self.models@[slots[t] as int].unwrap(),
            ),
            fallback: crate::ids::text_of(self.fallback_territory),
        }
    }

    /// The model that serves `territory`: its own, or else that of the fallback territory.
    pub open spec fn serving(&self, territory: Seq<char>) -> Option<M> {
        if self@.models.dom().contains(territory) {
            Some(self@.models[territory])
        } else {
            match self@.fallback {
                Some(fallback) => if self@.models.dom().contains(fallback) {
                    Some(self@.models[fallback])
                } else {
                    None
                },
                None => None,
            }
        }
    }

    /// An empty registry.
    pub fn new() -> (registry: Self)
        ensures
            registry.wf(),
            registry@.models == Map::<Seq<char>, M>::empty(),
            registry@.fallback is None,
    {
        let registry = ModelRegistry {
            slots: new_id_map(),
            models: Vec::new(),
            fallback_territory: None,
        };
        assert(registry@.models =~= Map::<Seq<char>, M>::empty());
        registry
    }

    /// An empty registry that serves unknown territories with the model of `fallback_territory`.
    pub fn with_fallback(fallback_territory: String) -> (registry: Self)
        ensures
            registry.wf(),
            registry@.models == Map::<Seq<char>, M>::empty(),
            registry@.fallback == Some(fallback_territory@),
    {
        let registry = ModelRegistry {
            slots: new_id_map(),
            models: Vec::new(),
            fallback_territory: Some(fallback_territory),
        };
        assert(registry@.models =~= Map::<Seq<char>, M>::empty());
        registry
    }

    /// Registers a model for a territory, in place of the one it had.
    pub fn register_model(&mut self, territory: String, model: M)
        requires
            old(self).wf(),
        ensures
            final(self).wf(),
            final(self)@.models == old(self)@.models.insert(territory@, model),
            final(self)@.fallback == old(self)@.fallback,
    {
        let ghost before = self@.models;
        let ghost slots = id_entries(self.slots);
        match id_get(&self.slots, territory.as_str()) {
            Some(slot) => {
                self.models.set(slot, Some(model));
                assert forall|t: Seq<char>|
                    t != territory@ && slots.dom().contains(t) implies slots[t] != slot by {
                    assert(slots.dom().contains(territory@));
                }
            },
            None => {
                let slot: usize = self.models.len();
                self.models.push(Some(model));
                id_insert(&mut self.slots, territory, slot);
            },
        }
        assert(self@.models =~= before.insert(territory@, model));
    }

    /// Takes a territory's model out.
    pub fn unregister(&mut self, territory: &str) -> (removed: Option<M>)
        requires
            old(self).wf(),
        ensures
            final(self).wf(),
            final(self)@.models == old(self)@.models.remove(territory@),
            final(self)@.fallback == old(self)@.fallback,
            removed == (if old(self)@.models.dom().contains(territory@) {
                Some(old(self)@.models[territory@])
            } else {
                None
            }),
    {
        let ghost before = self@.models;
        let ghost slots = id_entries(self.slots);
        let removed: Option<M> = match id_remove(&mut self.slots, territory) {
            Some(slot) => {
                let mut taken: Option<M> = None;
                std::mem::swap(&mut taken, &mut self.models[slot]);
                assert forall|t: Seq<char>|
                    t != territory@ && slots.dom().contains(t) implies slots[t] != slot by {
                    assert(slots.dom().contains(territory@));
                }
                taken
            },
            None => None,
        };
        assert(self@.models =~= before.remove(territory@));
        removed
    }

    /// The model of a territory, or that of the fallback territory.
    pub fn get_model(&self, territory: &str) -> (model: Option<&M>)
        requires
            self.wf(),
        ensures
            match model {
                Some(found) => self.serving(territory@) == Some(*found),
                None => self.serving(territory@) is None,
            },
    {
        if let Some(slot) = id_get(&self.slots, territory) {
            assert(id_entries(self.slots).dom().contains(territory@));
            return self.models[slot].as_ref();
        }
        if let Some(fallback) = &self.fallback_territory {
            if let Some(slot) = id_get(&self.slots, fallback.as_str()) {
                assert(id_entries(self.slots).dom().contains(fallback@));
                return self.models[slot].as_ref();
            }
        }
        None
    }

    /// The territories that have a model of their own, each once, in no particular order.
    pub fn territories(&self) -> (names: Vec<String>)
        ensures
            texts(names@).no_duplicates(),
            forall|t: Seq<char>| #[trigger] texts(names@).contains(t) <==> self@.models.dom().contains(t),
    {
        id_keys(&self.slots)
    }

    /// The number of models.
    pub fn len(&self) -> (count: usize)
        ensures
            count == self@.models.dom().len(),
    {
        assert(self@.models.dom() =~= id_entries(self.slots).dom());
        id_count(&self.slots)
    }

    /// Whether there is no model.
    pub fn is_empty(&self) -> (empty: bool)
        ensures
            empty == (self@.models.dom().len() == 0),
    {
        self.len() == 0
    }

    /// The model that serves a territory, or an error that names the territory.
    fn route(&self, territory: &str) -> (routed: Result<&M, ServingError>)
        requires
            self.wf(),
        ensures
            match routed {
                Ok(model) => self.serving(territory@) == Some(*model),
                Err(ServingError::UnknownTerritory { territory: name }) => self.serving(
                    territory@,
                ) is None && name@ == territory@,
                Err(_) => false,
            },
    {
        match self.get_model(territory) {
            Some(model) => Ok(model),
            None => Err(ServingError::UnknownTerritory { territory: territory.to_owned() }),
        }
    }

    /// Scores every item for a user of a territory.
    pub fn predict<V, F>(
        &self,
        territory: &str,
        user_interactions: &[(usize, V)],
        user_features: &[(usize, V)],
    ) -> (scores: Result<Vec<F>, ServingError>) where M: RecModel<V, F>
        requires
            self.wf(),
        ensures
            match self.serving(territory@) {
                None => scores matches Err(ServingError::UnknownTerritory { territory: name })
                    && name@ == territory@,
                Some(model) => exists|raw: Result<Vec<F>, ModelError>|
                    #[trigger] call_ensures(
                        M::predict_scores,
                        (
                            &model,
                            ModelInput::Sparse { interactions: user_interactions, user_features },
                        ),
                        raw,
                    ) && scores == lifted(raw),
            },
    {
        let model = match self.route(territory) {
            Ok(model) => model,
            Err(error) => {
                return Err(error);
            },
        };
        match model.predict_scores(
            ModelInput::Sparse { interactions: user_interactions, user_features },
        ) {
            Ok(scores) => Ok(scores),
            Err(error) => Err(ServingError::Model(error)),
        }
    }

    /// The best `top_k` items for a user of a territory, without those interacted with.
    pub fn predict_top_k<V: Copy, F: PartialOrd + Copy>(
        &self,
        territory: &str,
        user_interactions: &[(usize, V)],
        user_features: &[(usize, V)],
        top_k: usize,
    ) -> (ranked: Result<Vec<(usize, F)>, ServingError>) where M: RecModel<V, F>
        requires
            self.wf(),
            self.serving(territory@) matches Some(model) ==> reply_comparable::<V, F, M>(
                model,
                ModelInput::Sparse { interactions: user_interactions, user_features },
                indices_of(user_interactions@).to_set(),
            ),
        ensures
            match self.serving(territory@) {
                None => ranked matches Err(ServingError::UnknownTerritory { territory: name })
                    && name@ == territory@,
                Some(model) => exists|raw: Result<Vec<F>, ModelError>|
                    #[trigger] call_ensures(
                        M::predict_scores,
                        (
                            &model,
                            ModelInput::Sparse { interactions: user_interactions, user_features },
                        ),
                        raw,
                    ) && match raw {
                        Ok(scores) => ranked matches Ok(list) && list@
                            == crate::top_k::top_k(
                            scores@,
                            indices_of(user_interactions@).to_set(),
                            top_k,
                        ),
                        Err(error) => ranked == Err::<Vec<(usize, F)>, ServingError>(
                            ServingError::Model(error),
                        ),
                    },
            },
    {
        let scores = match self.predict(territory, user_interactions, user_features) {
            Ok(scores) => scores,
            Err(error) => {
                return Err(error);
            },
        };
        let interacted = collect_indices(user_interactions);
        Ok(filter_sort_top_k(scores, &interacted, top_k))
    }

    /// The items of a territory most similar to an item.
    pub fn predict_similar_items<V, F>(
        &self,
        territory: &str,
        item_idx: usize,
        top_k: usize,
    ) -> (similar: Result<Vec<(usize, F)>, ServingError>) where M: RecModel<V, F>
        requires
            self.wf(),
        ensures
            match self.serving(territory@) {
                None => similar matches Err(ServingError::UnknownTerritory { territory: name })
                    && name@ == territory@,
                Some(model) => exists|raw: Result<Vec<(usize, F)>, ModelError>|
                    #[trigger] call_ensures(
                        M::predict_similar_items,
                        (&model, item_idx, top_k),
                        raw,
                    ) && similar == lifted(raw),
            },
    {
        let model = match self.route(territory) {
            Ok(model) => model,
            Err(error) => {
                return Err(error);
            },
        };
        match model.predict_similar_items(item_idx, top_k) {
            Ok(similar) => Ok(similar),
            Err(error) => Err(ServingError::Model(error)),
        }
    }

    /// The best items for a user of an EASE territory, by identifiers. Unknown items and features
    /// are skipped; items interacted with are left out.
    pub fn predict_top_k_ease<V: Copy, F: PartialOrd + Copy>(
        &self,
        territory: &str,
        interactions: &[(String, V)],
        features: &[(String, V)],
        top_k: usize,
    ) -> (ranked: Result<Vec<(String, F)>, ServingError>) where M: RecModel<V, F>
        requires
            self.wf(),
            self.serving(territory@) matches Some(model) ==> call_ensures(
                <M as RecModel<V, F>>::kind,
                (&model,),
                ModelKind::Ease,
            ) ==> sparse_comparable::<V, F, M>(model, interactions@, features@),
        ensures
            match self.serving(territory@) {
                None => ranked matches Err(ServingError::UnknownTerritory { territory: name })
                    && name@ == territory@,
                Some(model) => exists|kind: ModelKind|
                    #[trigger] call_ensures(<M as RecModel<V, F>>::kind, (&model,), kind) && if kind
                        == ModelKind::Ease {
                        ease_outcome::<V, F, M>(
                            model,
                            interactions@,
                            features@,
                            top_k,
                            ranked,
                        )
                    } else {
                        refuses_kind(ranked, territory@, ModelKind::Ease, kind)
                    },
            },
    {
        let model = match self.route(territory) {
            Ok(model) => model,
            Err(error) => {
                return Err(error);
            },
        };
        let kind = model.kind();
        if kind != ModelKind::Ease {
            return Err(
                ServingError::WrongKind {
                    territory: territory.to_owned(),
                    wanted: ModelKind::Ease,
                    found: kind,
                },
            );
        }
        rank_sparse::<V, F, M>(model, interactions, features, top_k)
    }

    /// The best items after a history of a SASRec territory, by identifiers, oldest first. Unknown
    /// items are skipped; items of the history are left out.
    pub fn predict_top_k_sasrec<V, F: PartialOrd + Copy>(
        &self,
        territory: &str,
        history: &[String],
        top_k: usize,
    ) -> (ranked: Result<Vec<(String, F)>, ServingError>) where M: RecModel<V, F>
        requires
            self.wf(),
            self.serving(territory@) matches Some(model) ==> call_ensures(
                <M as RecModel<V, F>>::kind,
                (&model,),
                ModelKind::SasRec,
            ) ==> history_comparable::<V, F, M>(model, history@),
        ensures
            match self.serving(territory@) {
                None => ranked matches Err(ServingError::UnknownTerritory { territory: name })
                    && name@ == territory@,
                Some(model) => exists|kind: ModelKind|
                    #[trigger] call_ensures(<M as RecModel<V, F>>::kind, (&model,), kind) && if kind
                        == ModelKind::SasRec {
                        sasrec_outcome::<V, F, M>(model, history@, top_k, ranked)
                    } else {
                        refuses_kind(ranked, territory@, ModelKind::SasRec, kind)
                    },
            },
    {
        let model = match self.route(territory) {
            Ok(model) => model,
            Err(error) => {
                return Err(error);
            },
        };
        let kind = model.kind();
        if kind != ModelKind::SasRec {
            return Err(
                ServingError::WrongKind {
                    territory: territory.to_owned(),
                    wanted: ModelKind::SasRec,
                    found: kind,
                },
            );
        }
        rank_history::<V, F, M>(model, history, top_k)
    }

    /// The best items for a user of a two-tower territory, by identifiers. A user that is not known
    /// is scored without an index; nothing is left out.
    pub fn predict_top_k_two_tower<V, F: PartialOrd + Copy>(
        &self,
        territory: &str,
        user_id: &str,
        features: &[(String, V)],
        top_k: usize,
    ) -> (ranked: Result<Vec<(String, F)>, ServingError>) where M: RecModel<V, F>
        requires
            self.wf(),
            self.serving(territory@) matches Some(model) ==> call_ensures(
                <M as RecModel<V, F>>::kind,
                (&model,),
                ModelKind::TwoTower,
            ) ==> tower_user_comparable::<V, F, M>(model, user_id@, features),
        ensures
            match self.serving(territory@) {
                None => ranked matches Err(ServingError::UnknownTerritory { territory: name })
                    && name@ == territory@,
                Some(model) => exists|kind: ModelKind|
                    #[trigger] call_ensures(<M as RecModel<V, F>>::kind, (&model,), kind) && if kind
                        == ModelKind::TwoTower {
                        two_tower_outcome::<V, F, M>(model, user_id@, features, top_k, ranked)
                    } else {
                        refuses_kind(ranked, territory@, ModelKind::TwoTower, kind)
                    },
            },
    {
        let model = match self.route(territory) {
            Ok(model) => model,
            Err(error) => {
                return Err(error);
            },
        };
        let kind = model.kind();
        if kind != ModelKind::TwoTower {
            return Err(
                ServingError::WrongKind {
                    territory: territory.to_owned(),
                    wanted: ModelKind::TwoTower,
                    found: kind,
                },
            );
        }
        rank_tower_user::<V, F, M>(model, user_id, features, top_k)
    }
}

/// The best items for a user by identifiers, from an item model. Unknown items and features are
/// skipped; items interacted with are left out.
pub fn rank_sparse<V: Copy, F: PartialOrd + Copy, M: RecModel<V, F>>(
    model: &M,
    interactions: &[(String, V)],
    features: &[(String, V)],
    top_k: usize,
) -> (ranked: Result<Vec<(String, F)>, ServingError>)
    requires
        sparse_comparable::<V, F, M>(*model, interactions@, features@),
    ensures
        ease_outcome::<V, F, M>(*model, interactions@, features@, top_k, ranked),
{
    let mappings = model.item_mapping();
    let interactions_idx = resolve_pairs(&mappings.item_to_idx, interactions);
    let features_idx = resolve_pairs(&mappings.user_feature_to_idx, features);
    let items = interactions_idx.as_slice();
    let feats = features_idx.as_slice();
    assert(items@ == interactions_idx@ && feats@ == features_idx@);
    let scores = match model.predict_scores(
        ModelInput::Sparse { interactions: items, user_features: feats },
    ) {
        Ok(scores) => scores,
        Err(error) => {
            return Err(ServingError::Model(error));
        },
    };
    let interacted = collect_indices(&interactions_idx);
    let ranked = filter_sort_top_k(scores, &interacted, top_k);
    Ok(idx_scores_to_str(&ranked, mappings))
}

/// The best items after a history by identifiers, from a sequence model. Unknown items are skipped;
/// items of the history are left out.
pub fn rank_history<V, F: PartialOrd + Copy, M: RecModel<V, F>>(
    model: &M,
    history: &[String],
    top_k: usize,
) -> (ranked: Result<Vec<(String, F)>, ServingError>)
    requires
        history_comparable::<V, F, M>(*model, history@),
    ensures
        sasrec_outcome::<V, F, M>(*model, history@, top_k, ranked),
{
    let mappings = model.item_mapping();
    let history_idx = resolve_names(&mappings.item_to_idx, history);
    let items = history_idx.as_slice();
    assert(items@ == history_idx@);
    let scores = match model.predict_scores(ModelInput::Sequence { history: items }) {
        Ok(scores) => scores,
        Err(error) => {
            return Err(ServingError::Model(error));
        },
    };
    let ranked = filter_sort_top_k(scores, &history_idx, top_k);
    Ok(idx_scores_to_str(&ranked, mappings))
}

/// The best items for a user by identifier, from a two-tower model. A user that is not known is
/// scored without an index; nothing is left out.
pub fn rank_tower_user<V, F: PartialOrd + Copy, M: RecModel<V, F>>(
    model: &M,
    user_id: &str,
    features: &[(String, V)],
    top_k: usize,
) -> (ranked: Result<Vec<(String, F)>, ServingError>)
    requires
        tower_user_comparable::<V, F, M>(*model, user_id@, features),
    ensures
        two_tower_outcome::<V, F, M>(*model, user_id@, features, top_k, ranked),
{
    let mappings = model.item_mapping();
    let user_idx = id_get(&mappings.user_to_idx, user_id);
    let (cat_features, dense_features) = model.resolve_user_features(features);
    let cat = cat_features.as_slice();
    let dense = dense_features.as_slice();
    assert(cat@ == cat_features@ && dense@ == dense_features@);
    let scores = match model.predict_scores(
        ModelInput::TowerUser { user_idx, cat_features: cat, dense_features: dense },
    ) {
        Ok(scores) => scores,
        Err(error) => {
            return Err(ServingError::Model(error));
        },
    };
    let none: Vec<usize> = Vec::new();
    proof {
        assert(none@.to_set() =~= Set::<usize>::empty());
    }
    let ranked = filter_sort_top_k(scores, &none, top_k);
    Ok(idx_scores_to_str(&ranked, mappings))
}

/// A model's outcome as a registry's.
pub open spec fn lifted<T>(outcome: Result<T, ModelError>) -> Result<T, ServingError> {
    match outcome {
        Ok(value) => Ok(value),
        Err(error) => Err(ServingError::Model(error)),
    }
}

/// Whatever scores the model returns for `input` can be ranked without the excluded items.
pub open spec fn reply_comparable<V, F: PartialOrd, M: RecModel<V, F>>(
    model: M,
    input: ModelInput<V, F>,
    excluded: Set<usize>,
) -> bool {
    forall|raw: Result<Vec<F>, ModelError>|
        #[trigger] call_ensures(M::predict_scores, (&model, input), raw) ==> (raw matches Ok(scores)
            ==> comparable(candidate_scores(scores@, excluded)))
}

/// Whatever scores the model returns for the known interactions and features can be ranked.
pub open spec fn sparse_comparable<V, F: PartialOrd, M: RecModel<V, F>>(
    model: M,
    interactions: Seq<(String, V)>,
    features: Seq<(String, V)>,
) -> bool {
    forall|mappings: &Mappings, items: &[(usize, V)], feats: &[(usize, V)]|
        #![trigger
            call_ensures(<M as RecModel<V, F>>::item_mapping, (&model,), mappings),
            items@,
            feats@
        ]
        call_ensures(<M as RecModel<V, F>>::item_mapping, (&model,), mappings) && items@
            == known_pairs(
            id_entries(mappings.item_to_idx),
            interactions,
            interactions.len() as int,
        ) && feats@ == known_pairs(
            id_entries(mappings.user_feature_to_idx),
            features,
            features.len() as int,
        ) ==> reply_comparable::<V, F, M>(
            model,
            ModelInput::Sparse { interactions: items, user_features: feats },
            indices_of(items@).to_set(),
        )
}

/// Whatever scores the model returns for the known items of a history can be ranked.
pub open spec fn history_comparable<V, F: PartialOrd, M: RecModel<V, F>>(
    model: M,
    history: Seq<String>,
) -> bool {
    forall|mappings: &Mappings, items: &[usize]|
        #![trigger
            call_ensures(<M as RecModel<V, F>>::item_mapping, (&model,), mappings),
            items@
        ]
        call_ensures(<M as RecModel<V, F>>::item_mapping, (&model,), mappings) && items@
            == known_names(id_entries(mappings.item_to_idx), history, history.len() as int)
            ==> reply_comparable::<V, F, M>(
            model,
            ModelInput::Sequence { history: items },
            items@.to_set(),
        )
}

/// Whatever scores the model returns for a user and its resolved features can be ranked.
pub open spec fn tower_user_comparable<V, F: PartialOrd, M: RecModel<V, F>>(
    model: M,
    user_id: Seq<char>,
    features: &[(String, V)],
) -> bool {
    forall|
        mappings: &Mappings,
        resolved: (Vec<usize>, Vec<F>),
        cat: &[usize],
        dense: &[F],
    |
        #![trigger
            call_ensures(<M as RecModel<V, F>>::item_mapping, (&model,), mappings),
            call_ensures(
                <M as RecModel<V, F>>::resolve_user_features,
                (&model, features),
                resolved,
            ),
            cat@,
            dense@
        ]
        call_ensures(<M as RecModel<V, F>>::item_mapping, (&model,), mappings) && call_ensures(
            <M as RecModel<V, F>>::resolve_user_features,
            (&model, features),
            resolved,
        ) && cat@ == resolved.0@ && dense@ == resolved.1@ ==> reply_comparable::<V, F, M>(
            model,
            ModelInput::TowerUser {
                user_idx: lookup(id_entries(mappings.user_to_idx), user_id),
                cat_features: cat,
                dense_features: dense,
            },
            Set::<usize>::empty(),
        )
}

/// The index of a name, if it is known.
pub open spec fn lookup(index: Map<Seq<char>, usize>, name: Seq<char>) -> Option<usize> {
    if index.dom().contains(name) {
        Some(index[name])
    } else {
        None
    }
}

/// The indices of index-value pairs.
pub open spec fn indices_of<V>(pairs: Seq<(usize, V)>) -> Seq<usize> {
    pairs.map_values(|pair: (usize, V)| pair.0)
}

/// The known names among the first `n`, by index, in order.
pub open spec fn known_pairs<V>(
    index: Map<Seq<char>, usize>,
    pairs: Seq<(String, V)>,
    n: int,
) -> Seq<(usize, V)>
    decreases n,
{
    if n <= 0 {
        Seq::empty()
    } else if index.dom().contains(pairs[n - 1].0@) {
        known_pairs(index, pairs, n - 1).push((index[pairs[n - 1].0@], pairs[n - 1].1))
    } else {
        known_pairs(index, pairs, n - 1)
    }
}

/// The indices of the known names among the first `n`, in order.
pub open spec fn known_names(
    index: Map<Seq<char>, usize>,
    names: Seq<String>,
    n: int,
) -> Seq<usize>
    decreases n,
{
    if n <= 0 {
        Seq::empty()
    } else if index.dom().contains(names[n - 1]@) {
        known_names(index, names, n - 1).push(index[names[n - 1]@])
    } else {
        known_names(index, names, n - 1)
    }
}

/// A ranked list by names; positions without a name are skipped.
pub open spec fn by_name<F>(ranked: Seq<(usize, F)>, names: Seq<Seq<char>>, n: int) -> Seq<
    (Seq<char>, F),
>
    decreases n,
{
    if n <= 0 {
        Seq::empty()
    } else if ranked[n - 1].0 < names.len() {
        by_name(ranked, names, n - 1).push((names[ranked[n - 1].0 as int], ranked[n - 1].1))
    } else {
        by_name(ranked, names, n - 1)
    }
}

/// The characters and scores of named entries.
pub open spec fn named_view<F>(entries: Seq<(String, F)>) -> Seq<(Seq<char>, F)> {
    entries.map_values(|entry: (String, F)| (entry.0@, entry.1))
}

/// `ranked` lists the best `top_k` of `scores` outside `excluded` by the names of `mappings`.
pub open spec fn ranks_by_name<F: PartialOrd>(
    ranked: Result<Vec<(String, F)>, ServingError>,
    scores: Seq<F>,
    excluded: Set<usize>,
    top_k: usize,
    mappings: Mappings,
) -> bool {
    let best = crate::top_k::top_k(scores, excluded, top_k);
    ranked matches Ok(list) && named_view(list@) == by_name(
        best,
        texts(mappings.idx_to_item@),
        best.len() as int,
    )
}

/// `ranked` is the refusal of a model of kind `found` by the method for kind `wanted`.
pub open spec fn refuses_kind<T>(
    ranked: Result<T, ServingError>,
    territory: Seq<char>,
    wanted: ModelKind,
    found: ModelKind,
) -> bool {
    ranked matches Err(ServingError::WrongKind { territory: name, wanted: w, found: f }) && name@
        == territory && w == wanted && f == found
}

/// What an EASE model's reply to resolved interactions and features makes of `ranked`.
pub open spec fn ease_outcome<V, F: PartialOrd, M: RecModel<V, F>>(
    model: M,
    interactions: Seq<(String, V)>,
    features: Seq<(String, V)>,
    top_k: usize,
    ranked: Result<Vec<(String, F)>, ServingError>,
) -> bool {
    exists|
        mappings: &Mappings,
        items: &[(usize, V)],
        feats: &[(usize, V)],
        raw: Result<Vec<F>, ModelError>,
    | {
        &&& #[trigger] call_ensures(<M as RecModel<V, F>>::item_mapping, (&model,), mappings)
        &&& items@ == known_pairs(
            id_entries(mappings.item_to_idx),
            interactions,
            interactions.len() as int,
        )
        &&& feats@ == known_pairs(
            id_entries(mappings.user_feature_to_idx),
            features,
            features.len() as int,
        )
        &&& #[trigger] call_ensures(
            M::predict_scores,
            (&model, ModelInput::Sparse { interactions: items, user_features: feats }),
            raw,
        )
        &&& match raw {
            Ok(scores) => ranks_by_name(
                ranked,
                scores@,
                indices_of(items@).to_set(),
                top_k,
                *mappings,
            ),
            Err(error) => ranked == Err::<Vec<(String, F)>, ServingError>(
                ServingError::Model(error),
            ),
        }
    }
}

/// What a SASRec model's reply to a resolved history makes of `ranked`.
pub open spec fn sasrec_outcome<V, F: PartialOrd, M: RecModel<V, F>>(
    model: M,
    history: Seq<String>,
    top_k: usize,
    ranked: Result<Vec<(String, F)>, ServingError>,
) -> bool {
    exists|mappings: &Mappings, items: &[usize], raw: Result<Vec<F>, ModelError>| {
        &&& #[trigger] call_ensures(<M as RecModel<V, F>>::item_mapping, (&model,), mappings)
        &&& items@ == known_names(
            id_entries(mappings.item_to_idx),
            history,
            history.len() as int,
        )
        &&& #[trigger] call_ensures(
            M::predict_scores,
            (&model, ModelInput::Sequence { history: items }),
            raw,
        )
        &&& match raw {
            Ok(scores) => ranks_by_name(ranked, scores@, items@.to_set(), top_k, *mappings),
            Err(error) => ranked == Err::<Vec<(String, F)>, ServingError>(
                ServingError::Model(error),
            ),
        }
    }
}

/// What a two-tower model's reply to a resolved user makes of `ranked`.
pub open spec fn two_tower_outcome<V, F: PartialOrd, M: RecModel<V, F>>(
    model: M,
    user_id: Seq<char>,
    features: &[(String, V)],
    top_k: usize,
    ranked: Result<Vec<(String, F)>, ServingError>,
) -> bool {
    exists|
        mappings: &Mappings,
        resolved: (Vec<usize>, Vec<F>),
        user_idx: Option<usize>,
        cat: &[usize],
        dense: &[F],
        raw: Result<Vec<F>, ModelError>,
    | {
        &&& #[trigger] call_ensures(<M as RecModel<V, F>>::item_mapping, (&model,), mappings)
        &&& #[trigger] call_ensures(
            <M as RecModel<V, F>>::resolve_user_features,
            (&model, features),
            resolved,
        )
        &&& user_idx == lookup(id_entries(mappings.user_to_idx), user_id)
        &&& cat@ == resolved.0@
        &&& dense@ == resolved.1@
        &&& #[trigger] call_ensures(
            M::predict_scores,
            (
                &model,
                ModelInput::TowerUser {
                    user_idx,
                    cat_features: cat,
                    dense_features: dense,
                },
            ),
            raw,
        )
        &&& match raw {
            Ok(scores) => ranks_by_name(
                ranked,
                scores@,
                Set::<usize>::empty(),
                top_k,
                *mappings,
            ),
            Err(error) => ranked == Err::<Vec<(String, F)>, ServingError>(
                ServingError::Model(error),
            ),
        }
    }
}

/// The indices of index-value pairs.
pub fn collect_indices<V: Copy>(pairs: &[(usize, V)]) -> (indices: Vec<usize>)
    ensures
        indices@ == indices_of(pairs@),
{
    let mut indices: Vec<usize> = Vec::new();
    let mut i: usize = 0;
    while i < pairs.len()
        invariant
            i <= pairs@.len(),
            indices@ == indices_of(pairs@).take(i as int),
        decreases pairs@.len() - i,
    {
        indices.push(pairs[i].0);
        assert(indices@ =~= indices_of(pairs@).take(i + 1));
        i = i + 1;
    }
    assert(indices@ =~= indices_of(pairs@));
    indices
}

/// Translates named values into indexed ones; unknown names are skipped.
pub fn resolve_pairs<V: Copy>(index: &AHashMap<String, usize>, pairs: &[(String, V)]) -> (resolved:
    Vec<(usize, V)>)
    ensures
        resolved@ == known_pairs(id_entries(*index), pairs@, pairs@.len() as int),
{
    let mut resolved: Vec<(usize, V)> = Vec::new();
    let mut i: usize = 0;
    while i < pairs.len()
        invariant
            i <= pairs@.len(),
            resolved@ == known_pairs(id_entries(*index), pairs@, i as int),
        decreases pairs@.len() - i,
    {
        if let Some(idx) = id_get(index, pairs[i].0.as_str()) {
            resolved.push((idx, pairs[i].1));
        }
        i = i + 1;
    }
    resolved
}

/// Translates names into indices; unknown names are skipped.
pub fn resolve_names(index: &AHashMap<String, usize>, names: &[String]) -> (resolved: Vec<usize>)
    ensures
        resolved@ == known_names(id_entries(*index), names@, names@.len() as int),
{
    let mut resolved: Vec<usize> = Vec::new();
    let mut i: usize = 0;
    while i < names.len()
        invariant
            i <= names@.len(),
            resolved@ == known_names(id_entries(*index), names@, i as int),
        decreases names@.len() - i,
    {
        if let Some(idx) = id_get(index, names[i].as_str()) {
            resolved.push(idx);
        }
        i = i + 1;
    }
    resolved
}

/// A ranked list by the item names of `mappings`; positions without a name are skipped.
pub fn idx_scores_to_str<F: Copy>(ranked: &[(usize, F)], mappings: &Mappings) -> (named: Vec<
    (String, F),
>)
    ensures
        named_view(named@) == by_name(
            ranked@,
            texts(mappings.idx_to_item@),
            ranked@.len() as int,
        ),
{
    let ghost names = texts(mappings.idx_to_item@);
    let mut named: Vec<(String, F)> = Vec::new();
    let mut i: usize = 0;
    assert(named_view(named@) =~= Seq::empty());
    while i < ranked.len()
        invariant
            i <= ranked@.len(),
            names == texts(mappings.idx_to_item@),
            named_view(named@) == by_name(ranked@, names, i as int),
        decreases ranked@.len() - i,
    {
        let (idx, score) = ranked[i];
        if idx < mappings.idx_to_item.len() {
            let ghost before = named@;
            named.push((mappings.idx_to_item[idx].clone(), score));
            assert(named_view(named@) =~= named_view(before).push((names[idx as int], score)));
        }
        i = i + 1;
    }
    named
}

/// One user of a batch.
#[derive(Debug, Clone)]
pub struct UserInput<V> {
    /// Item indices with interaction values.
    pub interactions: Vec<(usize, V)>,
    /// Feature indices with values.
    pub features: Vec<(usize, V)>,
}

/// `raw` is a reply of `model` to the data of `user`.
pub open spec fn replies_to<V, F, M: RecModel<V, F>>(
    model: M,
    user: UserInput<V>,
    raw: Result<Vec<F>, ModelError>,
) -> bool {
    exists|items: &[(usize, V)], feats: &[(usize, V)]| {
        &&& items@ == user.interactions@
        &&& feats@ == user.features@
        &&& #[trigger] call_ensures(
            M::predict_scores,
            (&model, ModelInput::Sparse { interactions: items, user_features: feats }),
            raw,
        )
    }
}

/// Whatever scores the model returns for `user` can be ranked without the items interacted with.
pub open spec fn user_comparable<V, F: PartialOrd, M: RecModel<V, F>>(
    model: M,
    user: UserInput<V>,
) -> bool {
    forall|raw: Result<Vec<F>, ModelError>|
        #[trigger] replies_to(model, user, raw) ==> (raw matches Ok(scores) ==> comparable(
            candidate_scores(scores@, indices_of(user.interactions@).to_set()),
        ))
}

/// Scores every item for one user of a batch.
pub fn predict_user<V, F, M: RecModel<V, F>>(model: &M, user: &UserInput<V>) -> (scores: Result<
    Vec<F>,
    ModelError,
>)
    ensures
        replies_to(*model, *user, scores),
{
    model.predict_scores(
        ModelInput::Sparse {
            interactions: user.interactions.as_slice(),
            user_features: user.features.as_slice(),
        },
    )
}

/// The best `top_k` items for one user of a batch, without those interacted with.
pub fn predict_user_top_k<V: Copy, F: PartialOrd + Copy, M: RecModel<V, F>>(
    model: &M,
    user: &UserInput<V>,
    top_k: usize,
) -> (ranked: Result<Vec<(usize, F)>, ModelError>)
    requires
        user_comparable::<V, F, M>(*model, *user),
    ensures
        exists|raw: Result<Vec<F>, ModelError>|
            #[trigger] replies_to(*model, *user, raw) && match raw {
                Ok(scores) => ranked matches Ok(list) && list@ == crate::top_k::top_k(
                    scores@,
                    indices_of(user.interactions@).to_set(),
                    top_k,
                ),
                Err(error) => ranked == Err::<Vec<(usize, F)>, ModelError>(error),
            },
{
    let scores = match predict_user(model, user) {
        Ok(scores) => scores,
        Err(error) => {
            return Err(error);
        },
    };
    let interacted = collect_indices(&user.interactions);
    Ok(filter_sort_top_k(scores, &interacted, top_k))
}

/// Scores every item for each user, in the order of `users`; stops at the first user for whom the
/// model returns an error.
pub fn predict_batch<V, F, M: RecModel<V, F>>(model: &M, users: &[UserInput<V>]) -> (batch: Result<
    Vec<Vec<F>>,
    ModelError,
>)
    ensures
        match batch {
            Ok(all) => all@.len() == users@.len() && forall|i: int|
                0 <= i < all@.len() ==> replies_to(
                    *model,
                    users@[i],
                    Ok::<Vec<F>, ModelError>(#[trigger] all@[i]),
                ),
            Err(error) => exists|i: int|
                0 <= i < users@.len() && replies_to(
                    *model,
                    #[trigger] users@[i],
                    Err::<Vec<F>, ModelError>(error),
                ),
        },
{
    let mut all: Vec<Vec<F>> = Vec::new();
    while all.len() < users.len()
        invariant
            all@.len() <= users@.len(),
            forall|i: int|
                0 <= i < all@.len() ==> replies_to(
                    *model,
                    users@[i],
                    Ok::<Vec<F>, ModelError>(#[trigger] all@[i]),
                ),
        decreases users@.len() - all@.len(),
    {
        match predict_user(model, &users[all.len()]) {
            Ok(scores) => {
                all.push(scores);
            },
            Err(error) => {
                return Err(error);
            },
        }
    }
    Ok(all)
}

/// The best `top_k` items for each user, in the order of `users`; stops at the first user for whom
/// the model returns an error.
pub fn predict_batch_top_k<V: Copy, F: PartialOrd + Copy, M: RecModel<V, F>>(
    model: &M,
    users: &[UserInput<V>],
    top_k: usize,
) -> (batch: Result<Vec<Vec<(usize, F)>>, ModelError>)
    requires
        forall|i: int|
            0 <= i < users@.len() ==> user_comparable::<V, F, M>(*model, #[trigger] users@[i]),
    ensures
        match batch {
            Ok(all) => all@.len() == users@.len() && forall|i: int|
                0 <= i < all@.len() ==> best_of_user::<V, F, M>(
                    *model,
                    users@[i],
                    top_k,
                    (#[trigger] all@[i])@,
                ),
            Err(error) => exists|i: int|
                0 <= i < users@.len() && replies_to(
                    *model,
                    #[trigger] users@[i],
                    Err::<Vec<F>, ModelError>(error),
                ),
        },
{
    let mut all: Vec<Vec<(usize, F)>> = Vec::new();
    while all.len() < users.len()
        invariant
            forall|i: int|
                0 <= i < users@.len() ==> user_comparable::<V, F, M>(*model, #[trigger] users@[i]),
            all@.len() <= users@.len(),
            forall|i: int|
                0 <= i < all@.len() ==> best_of_user::<V, F, M>(
                    *model,
                    users@[i],
                    top_k,
                    (#[trigger] all@[i])@,
                ),
        decreases users@.len() - all@.len(),
    {
        match predict_user_top_k(model, &users[all.len()], top_k) {
            Ok(ranked) => {
                assert(best_of_user::<V, F, M>(
                    *model,
                    users@[all@.len() as int],
                    top_k,
                    ranked@,
                ));
                all.push(ranked);
            },
            Err(error) => {
                return Err(error);
            },
        }
    }
    Ok(all)
}

/// `ranked` is the best of the scores that the model replied with for `user`.
pub open spec fn best_of_user<V, F: PartialOrd, M: RecModel<V, F>>(
    model: M,
    user: UserInput<V>,
    top_k: usize,
    ranked: Seq<(usize, F)>,
) -> bool {
    exists|scores: Vec<F>|
        #[trigger] replies_to(model, user, Ok::<Vec<F>, ModelError>(scores)) && ranked
            == crate::top_k::top_k(scores@, indices_of(user.interactions@).to_set(), top_k)
}

/// A territory that has a model of its own is served by it, whatever happens to other territories.
pub proof fn territories_are_isolated<M>(
    before: ModelRegistry<M>,
    after: ModelRegistry<M>,
    territory: Seq<char>,
    other: Seq<char>,
    model: M,
)
    requires
        territory != other,
        before@.models.dom().contains(territory),
        after@.models == before@.models.insert(other, model) || after@.models
            == before@.models.remove(other),
    ensures
        after.serving(territory) == before.serving(territory),
        after.serving(territory) == Some(before@.models[territory]),
{
}

/// A registered model serves its territory, and after it is taken out only the fallback can.
pub proof fn registered_model_serves<M>(
    before: ModelRegistry<M>,
    after: ModelRegistry<M>,
    territory: Seq<char>,
    model: M,
)
    requires
        after@.fallback == before@.fallback,
    ensures
        after@.models == before@.models.insert(territory, model) ==> after.serving(territory) == Some(model),
        after@.models == before@.models.remove(territory) && (before@.fallback is None || before@.fallback
            == Some(territory)) ==> after.serving(territory) is None,
{
}

/// A territory without a model is served by the fallback territory's model.
pub proof fn unknown_territory_gets_fallback<M>(
    registry: ModelRegistry<M>,
    territory: Seq<char>,
    fallback: Seq<char>,
)
    requires
        registry@.fallback == Some(fallback),
        registry@.models.dom().contains(fallback),
        !registry@.models.dom().contains(territory),
    ensures
        registry.serving(territory) == Some(registry@.models[fallback]),
{
}

} // verus!
