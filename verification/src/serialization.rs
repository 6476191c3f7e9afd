//! The persisted form of a model.

use crate::data_pipeline::Mappings;
use crate::ids::{
    collect_entries, entries_of, id_entries, list_entries, listing_is_lossless, lists_entries,
};
use crate::matrix::Matrix;
use crate::model::RustFeaseModel;
use crate::text::{decimal, decimal_text, join, joined};
use crate::weighting::WeightingConfig;
use vstd::prelude::*;
use vstd::slice::slice_subrange;

verus! {

/// The version of the format.
pub const FORMAT_VERSION: u32 = 2;

/// The first bytes of every file: `FEAS`.
pub open spec fn magic() -> Seq<u8> {
    seq![70u8, 69u8, 65u8, 83u8]
}

/// Why a file is not a model.
#[derive(Debug, Clone, Copy, PartialEq, Eq, Structural)]
pub enum HeaderError {
    /// The file has no room for the magic.
    TooSmall,
    /// The file starts with other bytes.
    BadMagic,
}

/// The text of a header error for the file at `path`.
pub open spec fn header_message(error: HeaderError, path: Seq<char>) -> Seq<char> {
    match error {
        HeaderError::TooSmall => "File too small to be a valid FEASE model: "@ + path,
        HeaderError::BadMagic => "Invalid magic bytes in "@ + path + ". Expected FEAS header."@,
    }
}

impl HeaderError {
    /// A description for the caller.
    pub fn message(&self, path: &str) -> (text: String)
        ensures
            text@ == header_message(*self, path@),
    {
        match self {
            HeaderError::TooSmall => {
                let parts: [&str; 2] = ["File too small to be a valid FEASE model: ", path];
                proof {
                    reveal_with_fuel(joined, 3);
                    assert(joined(parts@) =~= header_message(*self, path@));
                }
                join(&parts)
            },
            HeaderError::BadMagic => {
                let parts: [&str; 3] = [
                    "Invalid magic bytes in ",
                    path,
                    ". Expected FEAS header.",
                ];
                proof {
                    reveal_with_fuel(joined, 4);
                    assert(joined(parts@) =~= header_message(*self, path@));
                }
                join(&parts)
            },
        }
    }
}

/// Puts the magic in front of an encoded model.
pub fn add_magic(payload: &[u8]) -> (file: Vec<u8>)
    ensures
        file@ == magic() + payload@,
{
    let mut file: Vec<u8> = Vec::new();
    file.push(70);
    file.push(69);
    file.push(65);
    file.push(83);
    assert(file@ =~= magic());
    file.extend_from_slice(payload);
    assert(file@ =~= magic() + payload@);
    file
}

/// The encoded model behind the magic.
pub fn strip_magic<'a>(data: &'a [u8]) -> (payload: Result<&'a [u8], HeaderError>)
    ensures
        match payload {
            Ok(rest) => data@ == magic() + rest@,
            Err(HeaderError::TooSmall) => data@.len() < 4,
            Err(HeaderError::BadMagic) => data@.len() >= 4 && data@.take(4) != magic(),
        },
{
    let n: usize = data.len();
    if n < 4 {
        return Err(HeaderError::TooSmall);
    }
    if data[0] != 70 || data[1] != 69 || data[2] != 65 || data[3] != 83 {
        proof {
            let front = data@.take(4);
            assert(front[0] == data@[0] && front[1] == data@[1] && front[2] == data@[2] && front[3]
                == data@[3]);
            assert(magic()[0] == 70 && magic()[1] == 69 && magic()[2] == 65 && magic()[3] == 83);
        }
        return Err(HeaderError::BadMagic);
    }
    let rest = slice_subrange(data, 4, n);
    assert(data@ =~= magic() + rest@);
    Ok(rest)
}

/// What is put behind the magic is found there, whatever it is.
pub proof fn magic_round_trip(payload: Seq<u8>, rest: Seq<u8>)
    requires
        magic() + payload == magic() + rest,
    ensures
        payload == rest,
        (magic() + payload).take(4) == magic(),
{
    assert((magic() + payload).skip(4) =~= payload);
    assert((magic() + rest).skip(4) =~= rest);
    assert((magic() + payload).take(4) =~= magic());
}

/// A model as it is persisted.
pub struct SerializedModel<V> {
    pub version: u32,
    pub s_nrows: usize,
    pub s_ncols: usize,
    /// The weights, column by column.
    pub s_data: Vec<V>,
    pub num_items: usize,
    pub num_user_features: usize,
    pub num_item_features: usize,
    pub alpha: V,
    pub beta: V,
    pub lambda_: V,
    pub meta_weight: V,
    pub user_to_idx: Vec<(String, usize)>,
    pub idx_to_user: Vec<String>,
    pub item_to_idx: Vec<(String, usize)>,
    pub idx_to_item: Vec<String>,
    pub user_feature_to_idx: Vec<(String, usize)>,
    pub idx_to_user_feature: Vec<String>,
    pub item_feature_to_idx: Vec<(String, usize)>,
    pub idx_to_item_feature: Vec<String>,
    pub weighting_config: Option<WeightingConfig<V>>,
}

/// A model as the first version of the format persisted it: without a weighting configuration.
pub struct SerializedModelV1<V> {
    pub version: u32,
    pub s_nrows: usize,
    pub s_ncols: usize,
    pub s_data: Vec<V>,
    pub num_items: usize,
    pub num_user_features: usize,
    pub num_item_features: usize,
    pub alpha: V,
    pub beta: V,
    pub lambda_: V,
    pub meta_weight: V,
    pub user_to_idx: Vec<(String, usize)>,
    pub idx_to_user: Vec<String>,
    pub item_to_idx: Vec<(String, usize)>,
    pub idx_to_item: Vec<String>,
    pub user_feature_to_idx: Vec<(String, usize)>,
    pub idx_to_user_feature: Vec<String>,
    pub item_feature_to_idx: Vec<(String, usize)>,
    pub idx_to_item_feature: Vec<String>,
}

/// `current` is what a model of the first version becomes: the same without a weighting
/// configuration.
pub open spec fn upgrades<V>(old_form: SerializedModelV1<V>, current: SerializedModel<V>) -> bool {
    current == (SerializedModel {
        version: old_form.version,
        s_nrows: old_form.s_nrows,
        s_ncols: old_form.s_ncols,
        s_data: old_form.s_data,
        num_items: old_form.num_items,
        num_user_features: old_form.num_user_features,
        num_item_features: old_form.num_item_features,
        alpha: old_form.alpha,
        beta: old_form.beta,
        lambda_: old_form.lambda_,
        meta_weight: old_form.meta_weight,
        user_to_idx: old_form.user_to_idx,
        idx_to_user: old_form.idx_to_user,
        item_to_idx: old_form.item_to_idx,
        idx_to_item: old_form.idx_to_item,
        user_feature_to_idx: old_form.user_feature_to_idx,
        idx_to_user_feature: old_form.idx_to_user_feature,
        item_feature_to_idx: old_form.item_feature_to_idx,
        idx_to_item_feature: old_form.idx_to_item_feature,
        weighting_config: None,
    })
}

impl<V> SerializedModelV1<V> {
    /// The current form of a model of the first version.
    pub fn into_v2(self) -> (current: SerializedModel<V>)
        ensures
            upgrades(self, current),
    {
        SerializedModel {
            version: self.version,
            s_nrows: self.s_nrows,
            s_ncols: self.s_ncols,
            s_data: self.s_data,
            num_items: self.num_items,
            num_user_features: self.num_user_features,
            num_item_features: self.num_item_features,
            alpha: self.alpha,
            beta: self.beta,
            lambda_: self.lambda_,
            meta_weight: self.meta_weight,
            user_to_idx: self.user_to_idx,
            idx_to_user: self.idx_to_user,
            item_to_idx: self.item_to_idx,
            idx_to_item: self.idx_to_item,
            user_feature_to_idx: self.user_feature_to_idx,
            idx_to_user_feature: self.idx_to_user_feature,
            item_feature_to_idx: self.item_feature_to_idx,
            idx_to_item_feature: self.idx_to_item_feature,
            weighting_config: None,
        }
    }
}

/// Why a persisted model is refused.
#[derive(Debug, Clone, Copy, PartialEq, Eq, Structural)]
pub enum FormatError {
    /// The version is neither the current one nor the first.
    UnsupportedVersion { version: u32 },
    /// The number of weights does not match their dimensions.
    DataLength { len: usize, nrows: usize, ncols: usize, expected: usize },
    /// The dimensions do not match the numbers of items and features.
    Dimensions {
        nrows: usize,
        ncols: usize,
        num_items: usize,
        num_user_features: usize,
        expected: usize,
    },
}

/// The text of a format error.
pub open spec fn format_message(error: FormatError) -> Seq<char> {
    match error {
        FormatError::UnsupportedVersion { version } => "Unsupported model format version: "@
            + decimal_text(version as nat) + " (expected 2 or 1)"@,
        FormatError::DataLength { len, nrows, ncols, expected } => "S matrix data length "@ + decimal_text(
            len as nat,
        ) + " doesn't match dimensions "@ + decimal_text(nrows as nat) + "x"@ + decimal_text(
            ncols as nat,
        ) + " (expected "@ + decimal_text(expected as nat) + ")"@,
        FormatError::Dimensions { nrows, ncols, num_items, num_user_features, expected } =>
            "S matrix dimensions "@ + decimal_text(nrows as nat) + "x"@ + decimal_text(ncols as nat)
            + " don't match num_items ("@ + decimal_text(num_items as nat)
            + ") + num_user_features ("@ + decimal_text(num_user_features as nat) + ") = "@
            + decimal_text(expected as nat),
    }
}

impl FormatError {
    /// A description for the caller.
    pub fn message(&self) -> (text: String)
        ensures
            text@ == format_message(*self),
    {
        match self {
            FormatError::UnsupportedVersion { version } => {
                let found = decimal(*version as u64);
                let parts: [&str; 3] = [
                    "Unsupported model format version: ",
                    found.as_str(),
                    " (expected 2 or 1)",
                ];
                proof {
                    reveal_with_fuel(joined, 4);
                    assert(joined(parts@) =~= format_message(*self));
                }
                join(&parts)
            },
            FormatError::DataLength { len, nrows, ncols, expected } => {
                let found = decimal(*len as u64);
                let rows = decimal(*nrows as u64);
                let cols = decimal(*ncols as u64);
                let total = decimal(*expected as u64);
                let parts: [&str; 9] = [
                    "S matrix data length ",
                    found.as_str(),
                    " doesn't match dimensions ",
                    rows.as_str(),
                    "x",
                    cols.as_str(),
                    " (expected ",
                    total.as_str(),
                    ")",
                ];
                proof {
                    reveal_with_fuel(joined, 10);
                    assert(joined(parts@) =~= format_message(*self));
                }
                join(&parts)
            },
            FormatError::Dimensions { nrows, ncols, num_items, num_user_features, expected } => {
                let rows = decimal(*nrows as u64);
                let cols = decimal(*ncols as u64);
                let items = decimal(*num_items as u64);
                let features = decimal(*num_user_features as u64);
                let total = decimal(*expected as u64);
                let parts: [&str; 10] = [
                    "S matrix dimensions ",
                    rows.as_str(),
                    "x",
                    cols.as_str(),
                    " don't match num_items (",
                    items.as_str(),
                    ") + num_user_features (",
                    features.as_str(),
                    ") = ",
                    total.as_str(),
                ];
                proof {
                    reveal_with_fuel(joined, 11);
                    assert(joined(parts@) =~= format_message(*self));
                }
                join(&parts)
            },
        }
    }
}

/// The payload of a file is in none of the forms.
#[derive(Debug, Clone, Copy, PartialEq, Eq, Structural)]
pub struct UnreadablePayload;

impl UnreadablePayload {
    /// A description for the caller.
    pub fn message(&self) -> (text: String)
        ensures
            text@ == "Failed to deserialize model data (tried v2 and v1 formats)"@,
    {
        "Failed to deserialize model data (tried v2 and v1 formats)".to_owned()
    }
}

/// The persisted model in the current form: as it was read in that form or, where it could not be,
/// brought up from the first one.
pub fn choose_form<V>(
    current: Option<SerializedModel<V>>,
    first: Option<SerializedModelV1<V>>,
) -> (chosen: Result<SerializedModel<V>, UnreadablePayload>)
    ensures
        match chosen {
            Ok(form) => {
                ||| current == Some(form)
                ||| current is None && first is Some && upgrades(first->Some_0, form)
            },
            Err(_) => current is None && first is None,
        },
{
    match current {
        Some(form) => Ok(form),
        None => match first {
            Some(old_form) => Ok(old_form.into_v2()),
            None => Err(UnreadablePayload),
        },
    }
}

/// Two weighting configurations are the same.
pub open spec fn same_weighting<V>(
    a: Option<WeightingConfig<V>>,
    b: Option<WeightingConfig<V>>,
) -> bool {
    match (a, b) {
        (None, None) => true,
        (Some(x), Some(y)) => {
            &&& x.decay_rate == y.decay_rate
            &&& x.ips_alpha == y.ips_alpha
            &&& x.sparsity_threshold == y.sparsity_threshold
            &&& match (x.event_weights, y.event_weights) {
                (None, None) => true,
                (Some(v), Some(w)) => v@ == w@,
                _ => false,
            }
        },
        _ => false,
    }
}

/// `stored` is the persisted form of `model`.
pub open spec fn stores<V>(stored: SerializedModel<V>, model: RustFeaseModel<V>) -> bool {
    &&& stored.version == FORMAT_VERSION
    &&& stored.s_nrows == model.s_matrix.nrows
    &&& stored.s_ncols == model.s_matrix.ncols
    &&& stored.s_data@ == model.s_matrix.data@
    &&& stored.num_items == model.num_items
    &&& stored.num_user_features == model.num_user_features
    &&& stored.num_item_features == model.num_item_features
    &&& stored.alpha == model.alpha
    &&& stored.beta == model.beta
    &&& stored.lambda_ == model.lambda_
    &&& stored.meta_weight == model.meta_weight
    &&& lists_entries(stored.user_to_idx@, id_entries(model.mappings.user_to_idx))
    &&& stored.idx_to_user@ == model.mappings.idx_to_user@
    &&& lists_entries(stored.item_to_idx@, id_entries(model.mappings.item_to_idx))
    &&& stored.idx_to_item@ == model.mappings.idx_to_item@
    &&& lists_entries(stored.user_feature_to_idx@, id_entries(model.mappings.user_feature_to_idx))
    &&& stored.idx_to_user_feature@ == model.mappings.idx_to_user_feature@
    &&& lists_entries(stored.item_feature_to_idx@, id_entries(model.mappings.item_feature_to_idx))
    &&& stored.idx_to_item_feature@ == model.mappings.idx_to_item_feature@
    &&& same_weighting(stored.weighting_config, model.weighting_config)
}

/// The error of a persisted model, if it has one.
pub open spec fn format_error<V>(stored: SerializedModel<V>) -> Option<FormatError> {
    if stored.version != FORMAT_VERSION && stored.version != 1 {
        Some(FormatError::UnsupportedVersion { version: stored.version })
    } else if stored.s_data@.len() != stored.s_nrows * stored.s_ncols {
        Some(
            FormatError::DataLength {
                len: stored.s_data@.len() as usize,
                nrows: stored.s_nrows,
                ncols: stored.s_ncols,
                expected: (stored.s_nrows * stored.s_ncols) as usize,
            },
        )
    } else if stored.s_nrows != stored.num_items + stored.num_user_features || stored.s_ncols
        != stored.num_items + stored.num_user_features {
        Some(
            FormatError::Dimensions {
                nrows: stored.s_nrows,
                ncols: stored.s_ncols,
                num_items: stored.num_items,
                num_user_features: stored.num_user_features,
                expected: (stored.num_items + stored.num_user_features) as usize,
            },
        )
    } else {
        None
    }
}

/// `model` is the one that `stored` holds. The first version has no weighting configuration.
pub open spec fn restores<V>(stored: SerializedModel<V>, model: RustFeaseModel<V>) -> bool {
    &&& model.s_matrix.nrows == stored.s_nrows
    &&& model.s_matrix.ncols == stored.s_ncols
    &&& model.s_matrix.data == stored.s_data
    &&& model.num_items == stored.num_items
    &&& model.num_user_features == stored.num_user_features
    &&& model.num_item_features == stored.num_item_features
    &&& model.alpha == stored.alpha
    &&& model.beta == stored.beta
    &&& model.lambda_ == stored.lambda_
    &&& model.meta_weight == stored.meta_weight
    &&& id_entries(model.mappings.user_to_idx) == entries_of(
        stored.user_to_idx@,
        stored.user_to_idx@.len() as int,
    )
    &&& model.mappings.idx_to_user == stored.idx_to_user
    &&& id_entries(model.mappings.item_to_idx) == entries_of(
        stored.item_to_idx@,
        stored.item_to_idx@.len() as int,
    )
    &&& model.mappings.idx_to_item == stored.idx_to_item
    &&& id_entries(model.mappings.user_feature_to_idx) == entries_of(
        stored.user_feature_to_idx@,
        stored.user_feature_to_idx@.len() as int,
    )
    &&& model.mappings.idx_to_user_feature == stored.idx_to_user_feature
    &&& id_entries(model.mappings.item_feature_to_idx) == entries_of(
        stored.item_feature_to_idx@,
        stored.item_feature_to_idx@.len() as int,
    )
    &&& model.mappings.idx_to_item_feature == stored.idx_to_item_feature
    &&& model.weighting_config == (if stored.version >= 2 {
        stored.weighting_config
    } else {
        None
    })
    &&& model.transformation_schema is None
}

/// A copy of names.
pub(crate) fn copy_names(names: &Vec<String>) -> (copy: Vec<String>)
    ensures
        copy@ == names@,
{
    let mut copy: Vec<String> = Vec::new();
    let mut i: usize = 0;
    while i < names.len()
        invariant
            i <= names@.len(),
            copy@ == names@.take(i as int),
        decreases names@.len() - i,
    {
        copy.push(names[i].clone());
        assert(copy@ =~= names@.take(i + 1));
        i = i + 1;
    }
    assert(copy@ =~= names@);
    copy
}

/// A copy of values.
pub(crate) fn copy_values<V: Copy>(values: &Vec<V>) -> (copy: Vec<V>)
    ensures
        copy@ == values@,
{
    let mut copy: Vec<V> = Vec::new();
    let mut i: usize = 0;
    while i < values.len()
        invariant
            i <= values@.len(),
            copy@ == values@.take(i as int),
        decreases values@.len() - i,
    {
        copy.push(values[i]);
        assert(copy@ =~= values@.take(i + 1));
        i = i + 1;
    }
    assert(copy@ =~= values@);
    copy
}

/// A copy of a weighting configuration.
fn copy_weighting<V: Copy>(config: &Option<WeightingConfig<V>>) -> (copy: Option<
    WeightingConfig<V>,
>)
    ensures
        same_weighting(copy, *config),
{
    match config {
        None => None,
        Some(given) => {
            let event_weights: Option<Vec<(String, V)>> = match &given.event_weights {
                None => None,
                Some(weights) => {
                    let mut list: Vec<(String, V)> = Vec::new();
                    let mut i: usize = 0;
                    while i < weights.len()
                        invariant
                            i <= weights@.len(),
                            list@ == weights@.take(i as int),
                        decreases weights@.len() - i,
                    {
                        list.push((weights[i].0.clone(), weights[i].1));
                        assert(list@ =~= weights@.take(i + 1));
                        i = i + 1;
                    }
                    assert(list@ =~= weights@);
                    Some(list)
                },
            };
            Some(
                WeightingConfig {
                    event_weights,
                    decay_rate: given.decay_rate,
                    ips_alpha: given.ips_alpha,
                    sparsity_threshold: given.sparsity_threshold,
                },
            )
        },
    }
}

impl<V: Copy> SerializedModel<V> {
    /// The persisted form of a model.
    pub fn from_model(model: &RustFeaseModel<V>) -> (stored: Self)
        ensures
            stores(stored, *model),
    {
        SerializedModel {
            version: FORMAT_VERSION,
            s_nrows: model.s_matrix.nrows,
            s_ncols: model.s_matrix.ncols,
            s_data: copy_values(&model.s_matrix.data),
            num_items: model.num_items,
            num_user_features: model.num_user_features,
            num_item_features: model.num_item_features,
            alpha: model.alpha,
            beta: model.beta,
            lambda_: model.lambda_,
            meta_weight: model.meta_weight,
            user_to_idx: list_entries(&model.mappings.user_to_idx),
            idx_to_user: copy_names(&model.mappings.idx_to_user),
            item_to_idx: list_entries(&model.mappings.item_to_idx),
            idx_to_item: copy_names(&model.mappings.idx_to_item),
            user_feature_to_idx: list_entries(&model.mappings.user_feature_to_idx),
            idx_to_user_feature: copy_names(&model.mappings.idx_to_user_feature),
            item_feature_to_idx: list_entries(&model.mappings.item_feature_to_idx),
            idx_to_item_feature: copy_names(&model.mappings.idx_to_item_feature),
            weighting_config: copy_weighting(&model.weighting_config),
        }
    }

    /// The model that a persisted form holds.
    pub fn into_model(self) -> (model: Result<RustFeaseModel<V>, FormatError>)
        requires
            self.s_nrows * self.s_ncols <= usize::MAX,
            self.num_items + self.num_user_features <= usize::MAX,
        ensures
            match model {
                Ok(restored) => {
                    &&& format_error(self) is None
                    &&& restored.wf()
                    &&& restores(self, restored)
                },
                Err(error) => format_error(self) == Some(error),
            },
    {
        if self.version != FORMAT_VERSION && self.version != 1 {
            return Err(FormatError::UnsupportedVersion { version: self.version });
        }
        let len: usize = self.s_data.len();
        let expected_len: usize = self.s_nrows * self.s_ncols;
        if len != expected_len {
            return Err(
                FormatError::DataLength {
                    len,
                    nrows: self.s_nrows,
                    ncols: self.s_ncols,
                    expected: expected_len,
                },
            );
        }
        let expected: usize = self.num_items + self.num_user_features;
        if self.s_nrows != expected || self.s_ncols != expected {
            return Err(
                FormatError::Dimensions {
                    nrows: self.s_nrows,
                    ncols: self.s_ncols,
                    num_items: self.num_items,
                    num_user_features: self.num_user_features,
                    expected,
                },
            );
        }
        let mappings = Mappings {
            user_to_idx: collect_entries(&self.user_to_idx),
            idx_to_user: self.idx_to_user,
            item_to_idx: collect_entries(&self.item_to_idx),
            idx_to_item: self.idx_to_item,
            user_feature_to_idx: collect_entries(&self.user_feature_to_idx),
            idx_to_user_feature: self.idx_to_user_feature,
            item_feature_to_idx: collect_entries(&self.item_feature_to_idx),
            idx_to_item_feature: self.idx_to_item_feature,
        };
        let weighting_config = if self.version >= 2 {
            self.weighting_config
        } else {
            None
        };
        Ok(
            RustFeaseModel {
                s_matrix: Matrix {
                    nrows: self.s_nrows,
                    ncols: self.s_ncols,
                    data: self.s_data,
                },
                num_items: self.num_items,
                num_user_features: self.num_user_features,
                num_item_features: self.num_item_features,
                alpha: self.alpha,
                beta: self.beta,
                lambda_: self.lambda_,
                meta_weight: self.meta_weight,
                mappings,
                weighting_config,
                transformation_schema: None,
            },
        )
    }
}

/// A stored model is restored: its form is accepted, and the restored model has the weights, the
/// parameters, the mappings and the weighting of the stored one.
pub proof fn storing_is_lossless<V>(
    model: RustFeaseModel<V>,
    stored: SerializedModel<V>,
    restored: RustFeaseModel<V>,
)
    requires
        model.wf(),
        stores(stored, model),
        restores(stored, restored),
    ensures
        format_error(stored) is None,
        restored.s_matrix.nrows == model.s_matrix.nrows,
        restored.s_matrix.ncols == model.s_matrix.ncols,
        restored.s_matrix.data@ == model.s_matrix.data@,
        restored.num_items == model.num_items,
        restored.num_user_features == model.num_user_features,
        restored.num_item_features == model.num_item_features,
        restored.alpha == model.alpha,
        restored.beta == model.beta,
        restored.lambda_ == model.lambda_,
        restored.meta_weight == model.meta_weight,
        id_entries(restored.mappings.user_to_idx) == id_entries(model.mappings.user_to_idx),
        restored.mappings.idx_to_user@ == model.mappings.idx_to_user@,
        id_entries(restored.mappings.item_to_idx) == id_entries(model.mappings.item_to_idx),
        restored.mappings.idx_to_item@ == model.mappings.idx_to_item@,
        id_entries(restored.mappings.user_feature_to_idx) == id_entries(
            model.mappings.user_feature_to_idx,
        ),
        restored.mappings.idx_to_user_feature@ == model.mappings.idx_to_user_feature@,
        id_entries(restored.mappings.item_feature_to_idx) == id_entries(
            model.mappings.item_feature_to_idx,
        ),
        restored.mappings.idx_to_item_feature@ == model.mappings.idx_to_item_feature@,
        same_weighting(restored.weighting_config, model.weighting_config),
{
    listing_is_lossless(stored.user_to_idx@, id_entries(model.mappings.user_to_idx));
    listing_is_lossless(stored.item_to_idx@, id_entries(model.mappings.item_to_idx));
    listing_is_lossless(
        stored.user_feature_to_idx@,
        id_entries(model.mappings.user_feature_to_idx),
    );
    listing_is_lossless(
        stored.item_feature_to_idx@,
        id_entries(model.mappings.item_feature_to_idx),
    );
}

/// A model of the first version that is restored has no weighting configuration.
pub proof fn first_version_has_no_weighting<V>(
    old_form: SerializedModelV1<V>,
    current: SerializedModel<V>,
    restored: RustFeaseModel<V>,
)
    requires
        upgrades(old_form, current),
        restores(current, restored),
    ensures
        restored.weighting_config is None,
{
}

/// A file of a model starts with the bytes of `FEAS`; one that does not, or is too short for them, is
/// refused.
pub proof fn files_start_with_the_magic(data: Seq<u8>, payload: Seq<u8>)
    ensures
        ({
            let file = magic() + payload;
            &&& file.len() == payload.len() + 4
            &&& file[0] == 0x46u8 && file[1] == 0x45u8 && file[2] == 0x41u8 && file[3] == 0x53u8
            &&& file.skip(4) == payload
        }),
        data.len() >= 4 && data.take(4) == magic() <==> data.len() >= 4 && data[0] == 0x46u8
            && data[1] == 0x45u8 && data[2] == 0x41u8 && data[3] == 0x53u8,
{
    assert((magic() + payload).skip(4) =~= payload);
    if data.len() >= 4 {
        let start = data.take(4);
        assert(start[0] == data[0] && start[1] == data[1] && start[2] == data[2] && start[3]
            == data[3]);
        assert(magic()[0] == 0x46u8 && magic()[1] == 0x45u8 && magic()[2] == 0x41u8 && magic()[3]
            == 0x53u8);
        if data[0] == 0x46u8 && data[1] == 0x45u8 && data[2] == 0x41u8 && data[3] == 0x53u8 {
            assert(start =~= magic());
        }
    }
}

/// A persisted model is accepted exactly where its version is one or two, it has as many weights as
/// its dimensions say, and these are the number of items and user features together. The version is
/// looked at first, then the weights, then the dimensions.
pub proof fn forms_are_held_against_their_dimensions<V>(stored: SerializedModel<V>)
    ensures
        ({
            let known = stored.version == 1 || stored.version == 2;
            let full = stored.s_data@.len() == stored.s_nrows * stored.s_ncols;
            let expected = stored.num_items + stored.num_user_features;
            let square = stored.s_nrows == expected && stored.s_ncols == expected;
            &&& format_error(stored) is None <==> known && full && square
            &&& format_error(stored) matches Some(FormatError::UnsupportedVersion { version })
                ==> !known && version == stored.version
            &&& format_error(stored) is Some && !known ==> format_error(stored)->Some_0
                is UnsupportedVersion
            &&& known && !full <==> format_error(stored) is Some && format_error(stored)->Some_0
                is DataLength
            &&& known && full && !square <==> format_error(stored) is Some && format_error(
                stored,
            )->Some_0 is Dimensions
        }),
{
}

/// The persisted form names its values: each field holds the value of the model that it is named
/// after, under version two.
pub proof fn stored_fields_are_those_of_the_model<V>(
    stored: SerializedModel<V>,
    model: RustFeaseModel<V>,
)
    requires
        stores(stored, model),
    ensures
        stored.version == 2,
        stored.s_nrows == model.s_matrix.nrows && stored.s_ncols == model.s_matrix.ncols,
        stored.s_data@ == model.s_matrix.data@,
        stored.num_items == model.num_items,
        stored.num_user_features == model.num_user_features,
        stored.num_item_features == model.num_item_features,
        stored.alpha == model.alpha,
        stored.beta == model.beta,
        stored.lambda_ == model.lambda_,
        stored.meta_weight == model.meta_weight,
        entries_of(stored.user_to_idx@, stored.user_to_idx@.len() as int) == id_entries(
            model.mappings.user_to_idx,
        ),
        entries_of(stored.item_to_idx@, stored.item_to_idx@.len() as int) == id_entries(
            model.mappings.item_to_idx,
        ),
        entries_of(stored.user_feature_to_idx@, stored.user_feature_to_idx@.len() as int)
            == id_entries(model.mappings.user_feature_to_idx),
        entries_of(stored.item_feature_to_idx@, stored.item_feature_to_idx@.len() as int)
            == id_entries(model.mappings.item_feature_to_idx),
        stored.idx_to_user@ == model.mappings.idx_to_user@,
        stored.idx_to_item@ == model.mappings.idx_to_item@,
        stored.idx_to_user_feature@ == model.mappings.idx_to_user_feature@,
        stored.idx_to_item_feature@ == model.mappings.idx_to_item_feature@,
        stored.weighting_config is Some <==> model.weighting_config is Some,
        stored.weighting_config matches Some(kept) ==> {
            let given = model.weighting_config.unwrap();
            &&& kept.decay_rate == given.decay_rate
            &&& kept.ips_alpha == given.ips_alpha
            &&& kept.sparsity_threshold == given.sparsity_threshold
            &&& kept.event_weights is Some <==> given.event_weights is Some
            &&& kept.event_weights is Some ==> kept.event_weights.unwrap()@
                == given.event_weights.unwrap()@
        },
{
    listing_is_lossless(stored.user_to_idx@, id_entries(model.mappings.user_to_idx));
    listing_is_lossless(stored.item_to_idx@, id_entries(model.mappings.item_to_idx));
    listing_is_lossless(
        stored.user_feature_to_idx@,
        id_entries(model.mappings.user_feature_to_idx),
    );
    listing_is_lossless(
        stored.item_feature_to_idx@,
        id_entries(model.mappings.item_feature_to_idx),
    );
}

/// A model restored from version two has the weighting that was stored, and one from version one has
/// none.
pub proof fn weighting_is_restored_from_version_two<V>(
    stored: SerializedModel<V>,
    model: RustFeaseModel<V>,
)
    requires
        restores(stored, model),
    ensures
        stored.version == 2 ==> model.weighting_config == stored.weighting_config,
        stored.version == 1 ==> model.weighting_config is None,
        model.s_matrix.data@ == stored.s_data@,
        model.alpha == stored.alpha && model.beta == stored.beta && model.lambda_
            == stored.lambda_ && model.meta_weight == stored.meta_weight,
        model.transformation_schema is None,
{
}

/// The first version's form keeps every value under its name.
pub proof fn upgrading_keeps_every_value<V>(
    old_form: SerializedModelV1<V>,
    current: SerializedModel<V>,
)
    requires
        upgrades(old_form, current),
    ensures
        current.version == old_form.version,
        current.s_nrows == old_form.s_nrows && current.s_ncols == old_form.s_ncols,
        current.s_data == old_form.s_data,
        current.num_items == old_form.num_items,
        current.num_user_features == old_form.num_user_features,
        current.num_item_features == old_form.num_item_features,
        current.alpha == old_form.alpha && current.beta == old_form.beta,
        current.lambda_ == old_form.lambda_ && current.meta_weight == old_form.meta_weight,
        current.user_to_idx == old_form.user_to_idx && current.idx_to_user == old_form.idx_to_user,
        current.item_to_idx == old_form.item_to_idx && current.idx_to_item == old_form.idx_to_item,
        current.user_feature_to_idx == old_form.user_feature_to_idx,
        current.idx_to_user_feature == old_form.idx_to_user_feature,
        current.item_feature_to_idx == old_form.item_feature_to_idx,
        current.idx_to_item_feature == old_form.idx_to_item_feature,
        current.weighting_config is None,
{
}

} // verus!
