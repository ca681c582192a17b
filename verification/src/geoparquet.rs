//! `GeoParquet` 1.1 row preparation: the checks a collection must pass before
//! any byte is published, the CRS it is written with, and its WKB rows and
//! bounds.

use crate::binary64::{binary64_value, is_finite, is_finite_bits, lemma_order_key, order_key};
use crate::bounds::{
    bounds_are_unique, bounds_of, fold_bounds, parts_bounds, parts_vertices, union_upto, Bounds,
};
use crate::error::SpatialIoError;
use crate::model::{
    AttributeFieldV1, AttributeMap, AttributeType, AttributeValue, FeatureCollectionV1, FeatureV1,
    GeometryV1, Point2,
};
use crate::reference::{json_root_object, parse_json_root, CoordinateSpace, Crs};
use crate::text::{
    decimal, decimal_text, key_in, sorted_distinct, string_keys, strictly_sorted, text_bytes,
};
use crate::wkb::{counts_fit, encode_wkb, geometry_parts, nested_positions, parts_of, GeometryKind};
use sha2::{Digest, Sha256};
use vstd::prelude::*;

verus! {

/// `GeoParquet` publication behavior.
#[derive(Debug, Clone, Copy, PartialEq, Eq, Structural)]
pub struct GeoParquetWriteOptions {
    /// Replace an existing destination atomically when true.
    pub overwrite: bool,
}

impl Default for GeoParquetWriteOptions {
    fn default() -> (options: Self)
        ensures
            !options.overwrite,
    {
        GeoParquetWriteOptions { overwrite: false }
    }
}

/// Why a collection cannot be written.
pub enum MetadataIssue {
    /// The named attribute column is reserved, duplicated, undeclared,
    /// missing from a non-nullable column or of another type than declared.
    Attribute(Seq<char>),
    /// A conversion tolerance (its encoding) is not finite and positive.
    Tolerance(u64),
    /// A floating-point attribute value (its encoding) is not finite.
    NonFiniteAttribute(u64),
}

/// `error` is how the writer reports `issue`.
pub open spec fn reports(error: SpatialIoError, issue: MetadataIssue) -> bool {
    match issue {
        MetadataIssue::Attribute(name) => error matches SpatialIoError::IncompatibleAttribute {
            name: n,
        } && n@ == name,
        MetadataIssue::Tolerance(bits) => error matches SpatialIoError::InvalidTolerance(t) && t
            == bits,
        MetadataIssue::NonFiniteAttribute(bits) => error matches SpatialIoError::NonFinite {
            field,
            value,
        } && field@ == "attribute"@ && value == bits,
    }
}

/// Column names that the writer uses for its own columns.
pub open spec fn reserved_column(name: Seq<char>) -> bool {
    ||| name == "feature_id"@
    ||| name == "source_primitive_id"@
    ||| name == "group_id"@
    ||| name == "conversion_profile_id"@
    ||| name == "conversion_tolerance"@
    ||| name == "geometry"@
    ||| name == "bbox"@
}

/// Declaration `i` is empty, reserved, or repeats an earlier name.
pub open spec fn schema_field_rejected(schema: Seq<AttributeFieldV1>, i: int) -> bool {
    let name = schema[i].name@;
    ||| name.len() == 0
    ||| reserved_column(name)
    ||| exists|j: int| 0 <= j < i && #[trigger] schema[j].name@ == name
}

/// The first rejected declaration at or after `i`.
pub open spec fn schema_issue(schema: Seq<AttributeFieldV1>, i: int) -> Option<MetadataIssue>
    decreases schema.len() - i,
{
    if i < 0 || i >= schema.len() {
        None
    } else if schema_field_rejected(schema, i) {
        Some(MetadataIssue::Attribute(schema[i].name@))
    } else {
        schema_issue(schema, i + 1)
    }
}

/// `name` is declared by the schema.
pub open spec fn declared(schema: Seq<AttributeFieldV1>, name: Seq<char>) -> bool {
    exists|j: int| 0 <= j < schema.len() && #[trigger] schema[j].name@ == name
}

/// A present conversion tolerance must be finite and positive.
pub open spec fn tolerance_issue(tolerance: Option<u64>) -> Option<MetadataIssue> {
    match tolerance {
        Some(bits) => if !is_finite_bits(bits) || binary64_value(bits) <= 0 {
            Some(MetadataIssue::Tolerance(bits))
        } else {
            None
        },
        None => None,
    }
}

/// One stored attribute must be declared and, if floating point, finite.
pub open spec fn entry_issue(
    schema: Seq<AttributeFieldV1>,
    name: Seq<char>,
    value: AttributeValue,
) -> Option<MetadataIssue> {
    if !declared(schema, name) {
        Some(MetadataIssue::Attribute(name))
    } else {
        match value {
            AttributeValue::F64(bits) => if is_finite_bits(bits) {
                None
            } else {
                Some(MetadataIssue::NonFiniteAttribute(bits))
            },
            _ => None,
        }
    }
}

/// The first stored attribute, in name order, at or after `i` with an issue.
pub open spec fn entries_issue(
    schema: Seq<AttributeFieldV1>,
    names: Seq<String>,
    values: Seq<AttributeValue>,
    i: int,
) -> Option<MetadataIssue>
    decreases names.len() - i,
{
    if i < 0 || i >= names.len() {
        None
    } else {
        match entry_issue(schema, names[i]@, values[i]) {
            Some(issue) => Some(issue),
            None => entries_issue(schema, names, values, i + 1),
        }
    }
}

/// The logical type of a non-null value.
pub open spec fn attribute_type_of(value: AttributeValue) -> Option<AttributeType> {
    match value {
        AttributeValue::Null => None,
        AttributeValue::Bool(_) => Some(AttributeType::Bool),
        AttributeValue::I64(_) => Some(AttributeType::I64),
        AttributeValue::U64(_) => Some(AttributeType::U64),
        AttributeValue::F64(_) => Some(AttributeType::F64),
        AttributeValue::Bytes(_) => Some(AttributeType::Bytes),
        AttributeValue::String(_) => Some(AttributeType::String),
    }
}

/// A feature's value for a declared column is null or absent although the
/// column is not nullable, or has another type than declared.
pub open spec fn field_mismatch(field: AttributeFieldV1, attributes: AttributeMap) -> bool {
    match attributes.lookup(text_bytes(field.name@)) {
        None => !field.nullable,
        Some(AttributeValue::Null) => !field.nullable,
        Some(value) => attribute_type_of(value) != Some(field.value_type),
    }
}

/// The first declared column, at or after `i`, that a feature's values do
/// not fit.
pub open spec fn fields_issue(
    schema: Seq<AttributeFieldV1>,
    attributes: AttributeMap,
    i: int,
) -> Option<MetadataIssue>
    decreases schema.len() - i,
{
    if i < 0 || i >= schema.len() {
        None
    } else if field_mismatch(schema[i], attributes) {
        Some(MetadataIssue::Attribute(schema[i].name@))
    } else {
        fields_issue(schema, attributes, i + 1)
    }
}

/// The first issue of one feature: its tolerance, then its stored
/// attributes in name order, then the declared columns in order.
pub open spec fn feature_issue(schema: Seq<AttributeFieldV1>, feature: FeatureV1) -> Option<
    MetadataIssue,
> {
    match tolerance_issue(feature.conversion_tolerance) {
        Some(issue) => Some(issue),
        None => match entries_issue(
            schema,
            feature.attributes.entry_names(),
            feature.attributes.entry_values(),
            0,
        ) {
            Some(issue) => Some(issue),
            None => fields_issue(schema, feature.attributes, 0),
        },
    }
}

/// The first issue of the features at or after `i`.
pub open spec fn features_issue(
    schema: Seq<AttributeFieldV1>,
    features: Seq<FeatureV1>,
    i: int,
) -> Option<MetadataIssue>
    decreases features.len() - i,
{
    if i < 0 || i >= features.len() {
        None
    } else {
        match feature_issue(schema, features[i]) {
            Some(issue) => Some(issue),
            None => features_issue(schema, features, i + 1),
        }
    }
}

/// The first issue of a collection: its schema, then its features in order.
pub open spec fn metadata_issue(collection: FeatureCollectionV1) -> Option<MetadataIssue> {
    match schema_issue(collection.attribute_schema@, 0) {
        Some(issue) => Some(issue),
        None => features_issue(collection.attribute_schema@, collection.features@, 0),
    }
}

/// `result` is `Ok` exactly when there is no issue, and otherwise reports it.
pub open spec fn outcome_of(result: Result<(), SpatialIoError>, issue: Option<MetadataIssue>) -> bool {
    match issue {
        None => result is Ok,
        Some(issue) => result matches Err(error) && reports(error, issue),
    }
}

/// Whether `name` is one of the writer's own column names.
pub fn is_reserved_column(name: &String) -> (reserved: bool)
    ensures
        reserved == reserved_column(name@),
{
    *name == String::from_str("feature_id") || *name == String::from_str("source_primitive_id")
        || *name == String::from_str("group_id") || *name == String::from_str(
        "conversion_profile_id",
    ) || *name == String::from_str("conversion_tolerance") || *name == String::from_str(
        "geometry",
    ) || *name == String::from_str("bbox")
}

/// The logical type of a non-null value, `None` for null.
pub fn attribute_type(value: &AttributeValue) -> (value_type: Option<AttributeType>)
    ensures
        value_type == attribute_type_of(*value),
{
    match value {
        AttributeValue::Null => None,
        AttributeValue::Bool(_) => Some(AttributeType::Bool),
        AttributeValue::I64(_) => Some(AttributeType::I64),
        AttributeValue::U64(_) => Some(AttributeType::U64),
        AttributeValue::F64(_) => Some(AttributeType::F64),
        AttributeValue::Bytes(_) => Some(AttributeType::Bytes),
        AttributeValue::String(_) => Some(AttributeType::String),
    }
}

fn incompatible(name: &String) -> (error: SpatialIoError)
    ensures
        reports(error, MetadataIssue::Attribute(name@)),
{
    SpatialIoError::IncompatibleAttribute { name: name.clone() }
}

/// Checks the attribute declarations: non-empty, not reserved, unique.
pub fn validate_schema(schema: &Vec<AttributeFieldV1>) -> (result: Result<(), SpatialIoError>)
    ensures
        outcome_of(result, schema_issue(schema@, 0)),
{
    let mut i: usize = 0;
    while i < schema.len()
        invariant
            i <= schema@.len(),
            schema_issue(schema@, 0) == schema_issue(schema@, i as int),
        decreases schema.len() - i,
    {
        let name = &schema[i].name;
        let mut repeated = false;
        let mut j: usize = 0;
        while j < i
            invariant
                i < schema@.len(),
                j <= i,
                *name == schema@[i as int].name,
                repeated == exists|k: int| 0 <= k < j && #[trigger] schema@[k].name@ == name@,
            decreases i - j,
        {
            if schema[j].name == *name {
                repeated = true;
            }
            j = j + 1;
        }
        if name.as_str().is_empty() || is_reserved_column(name) || repeated {
            return Err(incompatible(name));
        }
        i = i + 1;
    }
    Ok(())
}

/// Whether the schema declares `name`.
fn is_declared(schema: &Vec<AttributeFieldV1>, name: &String) -> (found: bool)
    ensures
        found == declared(schema@, name@),
{
    let mut j: usize = 0;
    while j < schema.len()
        invariant
            j <= schema@.len(),
            forall|k: int| 0 <= k < j ==> schema@[k].name@ != name@,
        decreases schema.len() - j,
    {
        if schema[j].name == *name {
            return true;
        }
        j = j + 1;
    }
    false
}

/// Checks one feature's tolerance and attributes against a valid schema.
pub fn validate_feature(schema: &Vec<AttributeFieldV1>, feature: &FeatureV1) -> (result: Result<
    (),
    SpatialIoError,
>)
    ensures
        outcome_of(result, feature_issue(schema@, *feature)),
{
    if let Some(tolerance) = feature.conversion_tolerance {
        if !is_finite(tolerance) {
            return Err(SpatialIoError::InvalidTolerance(tolerance));
        }
        proof {
            lemma_order_key(0, tolerance);
        }
        if order_key(tolerance) <= 0 {
            return Err(SpatialIoError::InvalidTolerance(tolerance));
        }
    }
    let names = feature.attributes.names();
    let values = feature.attributes.values();
    let mut k: usize = 0;
    while k < names.len()
        invariant
            names@ == feature.attributes.entry_names(),
            values@ == feature.attributes.entry_values(),
            values@.len() == names@.len(),
            tolerance_issue(feature.conversion_tolerance) is None,
            k <= names@.len(),
            entries_issue(schema@, names@, values@, 0) == entries_issue(
                schema@,
                names@,
                values@,
                k as int,
            ),
        decreases names.len() - k,
    {
        if !is_declared(schema, &names[k]) {
            return Err(incompatible(&names[k]));
        }
        if let AttributeValue::F64(bits) = &values[k] {
            if !is_finite(*bits) {
                proof {
                    reveal_strlit("attribute");
                }
                return Err(
                    SpatialIoError::NonFinite { field: String::from_str("attribute"), value: *bits },
                );
            }
        }
        k = k + 1;
    }
    let mut i: usize = 0;
    while i < schema.len()
        invariant
            i <= schema@.len(),
            tolerance_issue(feature.conversion_tolerance) is None,
            entries_issue(schema@, feature.attributes.entry_names(), feature.attributes.entry_values(), 0) is None,
            fields_issue(schema@, feature.attributes, 0) == fields_issue(
                schema@,
                feature.attributes,
                i as int,
            ),
        decreases schema.len() - i,
    {
        let field = &schema[i];
        let mismatch = match feature.attributes.get(field.name.as_str()) {
            None => !field.nullable,
            Some(AttributeValue::Null) => !field.nullable,
            Some(value) => match attribute_type(value) {
                Some(value_type) => value_type != field.value_type,
                None => true,
            },
        };
        if mismatch {
            return Err(incompatible(&field.name));
        }
        i = i + 1;
    }
    Ok(())
}

/// `value` is a non-null value of type `value_type`.
pub open spec fn is_of_type(value: AttributeValue, value_type: AttributeType) -> bool {
    match (value, value_type) {
        (AttributeValue::Bool(_), AttributeType::Bool) => true,
        (AttributeValue::I64(_), AttributeType::I64) => true,
        (AttributeValue::U64(_), AttributeType::U64) => true,
        (AttributeValue::F64(_), AttributeType::F64) => true,
        (AttributeValue::Bytes(_), AttributeType::Bytes) => true,
        (AttributeValue::String(_), AttributeType::String) => true,
        _ => false,
    }
}

/// Every feature fits every declared column: a non-nullable column holds,
/// in every feature, a stored value of the declared type (so neither absent
/// nor null); a nullable column holds a value of the declared type, a null,
/// or nothing.
pub open spec fn features_fit_schema(collection: FeatureCollectionV1) -> bool {
    forall|k: int, i: int|
        0 <= k < collection.features@.len() && 0 <= i < collection.attribute_schema@.len() ==> {
            let field = #[trigger] collection.attribute_schema@[i];
            match stored_value(#[trigger] collection.features@[k], field.name@) {
                None => field.nullable,
                Some(AttributeValue::Null) => field.nullable,
                Some(value) => is_of_type(value, field.value_type),
            }
        }
}

/// No issue in the declared columns from `i` on means each of them fits.
proof fn lemma_fields_fit(schema: Seq<AttributeFieldV1>, attributes: AttributeMap, i: int)
    requires
        0 <= i,
        fields_issue(schema, attributes, i) is None,
    ensures
        forall|m: int| i <= m < schema.len() ==> !field_mismatch(#[trigger] schema[m], attributes),
    decreases schema.len() - i,
{
    if i < schema.len() {
        lemma_fields_fit(schema, attributes, i + 1);
    }
}

/// No issue in the features from `k` on means each of them has none.
proof fn lemma_features_fit(schema: Seq<AttributeFieldV1>, features: Seq<FeatureV1>, k: int)
    requires
        0 <= k,
        features_issue(schema, features, k) is None,
    ensures
        forall|j: int| k <= j < features.len() ==> feature_issue(schema, #[trigger] features[j]) is None,
    decreases features.len() - k,
{
    if k < features.len() {
        lemma_features_fit(schema, features, k + 1);
    }
}

/// A collection that passes metadata validation fits its declared schema:
/// no feature lacks a value, or stores a null, in a non-nullable column, and
/// every stored value in a declared column has the declared type.
pub proof fn validated_features_fit_the_schema(collection: FeatureCollectionV1)
    requires
        metadata_issue(collection) is None,
    ensures
        features_fit_schema(collection),
{
    let schema = collection.attribute_schema@;
    let features = collection.features@;
    lemma_features_fit(schema, features, 0);
    assert forall|k: int, i: int|
        0 <= k < features.len() && 0 <= i < schema.len() implies {
            let field = #[trigger] schema[i];
            match stored_value(#[trigger] features[k], field.name@) {
                None => field.nullable,
                Some(AttributeValue::Null) => field.nullable,
                Some(value) => is_of_type(value, field.value_type),
            }
        } by {
        assert(feature_issue(schema, features[k]) is None);
        lemma_fields_fit(schema, features[k].attributes, 0);
        assert(!field_mismatch(schema[i], features[k].attributes));
    }
}

/// Checks the attribute schema, then every feature in order, reporting the
/// first issue found.
pub fn validate_feature_metadata(collection: &FeatureCollectionV1) -> (result: Result<
    (),
    SpatialIoError,
>)
    ensures
        outcome_of(result, metadata_issue(*collection)),
        result is Ok ==> features_fit_schema(*collection),
{
    proof {
        if metadata_issue(*collection) is None {
            validated_features_fit_the_schema(*collection);
        }
    }
    validate_schema(&collection.attribute_schema)?;
    let schema = &collection.attribute_schema;
    let features = &collection.features;
    let mut i: usize = 0;
    while i < features.len()
        invariant
            *schema == collection.attribute_schema,
            *features == collection.features,
            schema_issue(schema@, 0) is None,
            i <= features@.len(),
            features_issue(schema@, features@, 0) == features_issue(schema@, features@, i as int),
        decreases features.len() - i,
    {
        validate_feature(schema, &features[i])?;
        i = i + 1;
    }
    Ok(())
}

/// The CRS a collection is written with.
#[derive(Debug)]
pub struct ResolvedCrs {
    /// PROJJSON text of the CRS, or `None` where the metadata records `null`.
    pub projjson: Option<String>,
    /// CRS identity recorded in the write report.
    pub identity: String,
}

/// What `epsg_utils::epsg_to_projjson` holds for an EPSG code: the text of
/// its PROJJSON definition, or `None` for a code it does not know.
pub uninterp spec fn epsg_definition(code: i32) -> Option<Seq<char>>;

/// Looks a code up with `epsg_utils::epsg_to_projjson`. Its embedded table
/// gives [`epsg_definition`] of the code; the one error the function returns,
/// `ParseError::UnknownEpsgCode`, displays as `unknown EPSG code: ` and the
/// code in decimal.
#[verifier::external_body]
fn epsg_projjson(code: i32) -> (result: Result<String, String>)
    requires
        code >= 0,
    ensures
        match result {
            Ok(text) => epsg_definition(code) == Some(text@),
            Err(message) => epsg_definition(code) is None && message@ == "unknown EPSG code: "@
                + decimal_text(code as nat),
        },
{
    match epsg_utils::epsg_to_projjson(code) {
        Ok(text) => Ok(text.to_owned()),
        Err(error) => Err(error.to_string()),
    }
}

/// The resolved CRS has no PROJJSON and the given identity.
pub open spec fn resolved_null(result: Result<ResolvedCrs, SpatialIoError>, identity: Seq<char>) -> bool {
    result matches Ok(resolved) && resolved.projjson is None && resolved.identity@ == identity
}

/// The resolved CRS has the given PROJJSON text and identity.
pub open spec fn resolved_text(
    result: Result<ResolvedCrs, SpatialIoError>,
    text: Seq<char>,
    identity: Seq<char>,
) -> bool {
    result matches Ok(resolved) && resolved.projjson matches Some(t) && t@ == text
        && resolved.identity@ == identity
}

/// `result` is an `InvalidProjJson` error with the given message.
pub open spec fn invalid_projjson(result: Result<ResolvedCrs, SpatialIoError>, message: Seq<char>) -> bool {
    result matches Err(SpatialIoError::InvalidProjJson(m)) && m@ == message
}

/// `result` is an `UnsupportedCrs` error with the given message.
pub open spec fn unsupported_crs(result: Result<ResolvedCrs, SpatialIoError>, message: Seq<char>) -> bool {
    result matches Err(SpatialIoError::UnsupportedCrs(m)) && m@ == message
}

/// The CRS resolution of an EPSG code that fits `i32`.
pub open spec fn epsg_resolution(result: Result<ResolvedCrs, SpatialIoError>, code: u32) -> bool {
    let digits = decimal_text(code as nat);
    match epsg_definition(code as i32) {
        None => unsupported_crs(
            result,
            "EPSG:"@ + digits + ": "@ + "unknown EPSG code: "@ + digits,
        ),
        Some(text) => match json_root_object(text) {
            Ok(_) => resolved_text(result, text, "EPSG:"@ + digits),
            Err(message) => invalid_projjson(result, message),
        },
    }
}

/// Resolves a caller-provided PROJJSON text from what parsing it produced.
pub fn projjson_resolution(text: &String, parsed: Result<bool, String>) -> (result: Result<
    ResolvedCrs,
    SpatialIoError,
>)
    ensures
        match parsed {
            Ok(true) => resolved_text(result, text@, "projjson"@),
            Ok(false) => invalid_projjson(result, "the root value must be an object"@),
            Err(message) => invalid_projjson(result, message@),
        },
{
    match parsed {
        Ok(true) => Ok(
            ResolvedCrs { projjson: Some(text.clone()), identity: String::from_str("projjson") },
        ),
        Ok(false) => Err(
            SpatialIoError::InvalidProjJson(String::from_str("the root value must be an object")),
        ),
        Err(message) => Err(SpatialIoError::InvalidProjJson(message)),
    }
}

/// Resolves an EPSG code from its definition lookup (the PROJJSON text or the
/// lookup's error message) and, for a found text, from what parsing it
/// produced.
pub fn epsg_resolution_from(code: u32, looked_up: Result<String, String>, parsed: Result<bool, String>) -> (result: Result<
    ResolvedCrs,
    SpatialIoError,
>)
    ensures
        match looked_up {
            Err(message) => unsupported_crs(result, "EPSG:"@ + decimal_text(code as nat) + ": "@ + message@),
            Ok(text) => match parsed {
                Ok(_) => resolved_text(result, text@, "EPSG:"@ + decimal_text(code as nat)),
                Err(message) => invalid_projjson(result, message@),
            },
        },
{
    let mut identity = String::from_str("EPSG:");
    identity.append(decimal(code as u64).as_str());
    match looked_up {
        Err(message) => {
            identity.append(": ");
            identity.append(message.as_str());
            Err(SpatialIoError::UnsupportedCrs(identity))
        },
        Ok(text) => match parsed {
            Ok(_) => Ok(ResolvedCrs { projjson: Some(text), identity }),
            Err(message) => Err(SpatialIoError::InvalidProjJson(message)),
        },
    }
}

/// `result` is how a coordinate space resolves: `null` with a fixed identity
/// for pixel, local and unknown spaces, and the parsed PROJJSON of a
/// caller-provided text or of an EPSG definition otherwise.
pub open spec fn crs_resolved(result: Result<ResolvedCrs, SpatialIoError>, space: CoordinateSpace) -> bool {
    match space {
        CoordinateSpace::Pixel { .. } => resolved_null(result, "pixel:null"@),
        CoordinateSpace::Local { unit } => resolved_null(result, "local:"@ + unit@ + ":null"@),
        CoordinateSpace::Georeferenced { crs: Crs::Unknown } => resolved_null(
            result,
            "unknown:null"@,
        ),
        CoordinateSpace::Georeferenced { crs: Crs::ProjJson(text) } => match json_root_object(
            text@,
        ) {
            Ok(true) => resolved_text(result, text@, "projjson"@),
            Ok(false) => invalid_projjson(result, "the root value must be an object"@),
            Err(message) => invalid_projjson(result, message),
        },
        CoordinateSpace::Georeferenced { crs: Crs::Epsg(code) } => if code <= 0x7fff_ffff {
            epsg_resolution(result, code)
        } else {
            unsupported_crs(result, "EPSG:"@ + decimal_text(code as nat) + " exceeds i32"@)
        },
    }
}

/// Whether resolving a coordinate space fails.
pub open spec fn crs_fails(space: CoordinateSpace) -> bool {
    match space {
        CoordinateSpace::Georeferenced { crs: Crs::ProjJson(text) } => json_root_object(text@) != Ok::<bool, Seq<char>>(true),
        CoordinateSpace::Georeferenced { crs: Crs::Epsg(code) } => code > 0x7fff_ffff || match epsg_definition(code as i32) {
            None => true,
            Some(text) => json_root_object(text) is Err,
        },
        _ => false,
    }
}

/// The PROJJSON (or `null`) and identity a coordinate space is written with.
pub fn resolve_crs(coordinate_space: &CoordinateSpace) -> (result: Result<ResolvedCrs, SpatialIoError>)
    ensures
        crs_resolved(result, *coordinate_space),
        result is Err == crs_fails(*coordinate_space),
{
    let crs = match coordinate_space {
        CoordinateSpace::Pixel { .. } => {
            return Ok(ResolvedCrs { projjson: None, identity: String::from_str("pixel:null") });
        },
        CoordinateSpace::Local { unit } => {
            let mut identity = String::from_str("local:");
            identity.append(unit.as_str());
            identity.append(":null");
            return Ok(ResolvedCrs { projjson: None, identity });
        },
        CoordinateSpace::Georeferenced { crs } => crs,
    };
    match crs {
        Crs::Unknown => Ok(ResolvedCrs { projjson: None, identity: String::from_str("unknown:null") }),
        Crs::ProjJson(text) => projjson_resolution(text, parse_json_root(text.as_str())),
        Crs::Epsg(code) => {
            if *code > 0x7fff_ffff {
                let mut message = String::from_str("EPSG:");
                message.append(decimal(*code as u64).as_str());
                message.append(" exceeds i32");
                return Err(SpatialIoError::UnsupportedCrs(message));
            }
            let signed = *code as i32;
            assert(signed as nat == *code as nat);
            let looked_up = epsg_projjson(signed);
            let parsed = match &looked_up {
                Ok(text) => parse_json_root(text.as_str()),
                Err(_) => Ok(false),
            };
            let result = epsg_resolution_from(*code, looked_up, parsed);
            proof {
                if epsg_definition(signed) is None {
                    let digits = decimal_text(*code as nat);
                    assert("EPSG:"@ + digits + ": "@ + ("unknown EPSG code: "@ + digits) =~= "EPSG:"@
                        + digits + ": "@ + "unknown EPSG code: "@ + digits);
                }
            }
            result
        },
    }
}

/// The parts of a feature's writable geometry.
pub open spec fn feature_parts(feature: FeatureV1) -> Seq<Seq<Seq<Point2>>> {
    geometry_parts(feature.geometry).unwrap().1
}

/// The kind of a feature's writable geometry.
pub open spec fn feature_kind(feature: FeatureV1) -> GeometryKind {
    geometry_parts(feature.geometry).unwrap().0
}

/// The first feature, at or after `i`, whose geometry cannot be written.
pub open spec fn first_unsupported(features: Seq<FeatureV1>, i: int) -> Option<int>
    decreases features.len() - i,
{
    if i < 0 || i >= features.len() {
        None
    } else if geometry_parts(features[i].geometry) is None {
        Some(i)
    } else {
        first_unsupported(features, i + 1)
    }
}

/// The variant name of a geometry.
pub open spec fn geometry_name(geometry: GeometryV1) -> Seq<char> {
    match geometry {
        GeometryV1::Point(_) => "Point"@,
        GeometryV1::LineString(_) => "LineString"@,
        GeometryV1::MultiLineString(_) => "MultiLineString"@,
        GeometryV1::CubicPath(_) => "CubicPath"@,
        GeometryV1::Polygon(_) => "Polygon"@,
        GeometryV1::MultiPolygon(_) => "MultiPolygon"@,
    }
}

/// The message rejecting a geometry the writer cannot encode.
pub open spec fn unsupported_message(geometry: GeometryV1) -> Seq<char> {
    "GeoParquet writer accepts LineString, Polygon and MultiPolygon, got "@ + geometry_name(geometry)
}

/// The message rejecting an empty collection.
pub open spec fn empty_collection_message() -> Seq<char> {
    "GeoParquet output requires at least one feature"@
}

/// Each feature's vertices as a vertex set of its own.
pub open spec fn row_family(features: Seq<FeatureV1>) -> spec_fn(int) -> spec_fn((int, int)) -> bool {
    |i: int| parts_vertices(feature_parts(features[i]))
}

/// Some feature's geometry has kind `kind`.
pub open spec fn has_kind(features: Seq<FeatureV1>, kind: GeometryKind) -> bool {
    exists|i: int| 0 <= i < features.len() && #[trigger] feature_kind(features[i]) == kind
}

/// The kinds present among the features, in declaration order of the kinds.
pub open spec fn kinds_present(features: Seq<FeatureV1>) -> Seq<GeometryKind> {
    (if has_kind(features, GeometryKind::LineString) {
        seq![GeometryKind::LineString]
    } else {
        seq![]
    }) + (if has_kind(features, GeometryKind::Polygon) {
        seq![GeometryKind::Polygon]
    } else {
        seq![]
    }) + (if has_kind(features, GeometryKind::MultiPolygon) {
        seq![GeometryKind::MultiPolygon]
    } else {
        seq![]
    })
}

/// Some feature names a conversion profile whose bytes are `key`.
pub open spec fn profile_named(features: Seq<FeatureV1>, key: Seq<u8>) -> bool {
    exists|i: int|
        0 <= i < features.len() && ((#[trigger] features[i]).conversion_profile_id matches Some(p)
            && text_bytes(p@) == key)
}

/// What the `GeoParquet` writer records of a collection apart from the file
/// layout: one WKB value and bounds per feature, aggregate bounds, the
/// geometry types present, the CRS, and the report's count and profiles.
#[derive(Debug)]
pub struct GeoParquetPlan {
    /// Little-endian WKB of each feature's geometry, in feature order.
    pub geometries: Vec<Vec<u8>>,
    /// Exact bounds of each feature's vertices, in feature order.
    pub row_bounds: Vec<Bounds>,
    /// Exact bounds of every vertex of the collection.
    pub bbox: Bounds,
    /// Geometry types present, in the order `LineString`, `Polygon`, `MultiPolygon`.
    pub geometry_types: Vec<GeometryKind>,
    /// PROJJSON (or `null`) and CRS identity.
    pub crs: ResolvedCrs,
    /// Number of feature rows.
    pub feature_count: u64,
    /// Distinct conversion profiles present, in byte order.
    pub conversion_profile_ids: Vec<String>,
}

/// The rows, bounds, kinds and profiles of a plan are those of the features.
pub open spec fn plan_rows(plan: GeoParquetPlan, features: Seq<FeatureV1>) -> bool {
    &&& plan.feature_count == features.len()
    &&& plan.geometries@.len() == features.len()
    &&& plan.row_bounds@.len() == features.len()
    &&& forall|i: int|
        0 <= i < features.len() ==> (#[trigger] plan.geometries@[i])@ == crate::wkb::geometry_wkb(
            feature_kind(features[i]),
            feature_parts(features[i]),
        )
    &&& forall|i: int|
        0 <= i < features.len() ==> bounds_of(
            #[trigger] plan.row_bounds@[i],
            parts_vertices(feature_parts(features[i])),
        )
    &&& bounds_of(plan.bbox, union_upto(row_family(features), features.len() as int))
    &&& plan.geometry_types@ == kinds_present(features)
    &&& strictly_sorted(string_keys(plan.conversion_profile_ids@))
    &&& forall|key: Seq<u8>|
        #[trigger] key_in(
            string_keys(plan.conversion_profile_ids@),
            plan.conversion_profile_ids@.len() as int,
            key,
        ) == profile_named(features, key)
}

/// What preparing a collection for `GeoParquet` returns: the first failure
/// among an empty collection, a metadata issue, an unwritable geometry, a
/// CRS that does not resolve and a WKB count over four bytes, or the plan.
pub open spec fn plan_outcome(result: Result<GeoParquetPlan, SpatialIoError>, collection: FeatureCollectionV1) -> bool {
    let features = collection.features@;
    let space = collection.spatial_reference.coordinate_space;
    if features.len() == 0 {
        result matches Err(SpatialIoError::InvalidGeometry(m)) && m@ == empty_collection_message()
    } else if metadata_issue(collection) is Some {
        result matches Err(error) && reports(error, metadata_issue(collection).unwrap())
    } else if first_unsupported(features, 0) is Some {
        result matches Err(SpatialIoError::UnsupportedPrimitive(m)) && m@ == unsupported_message(
            features[first_unsupported(features, 0).unwrap()].geometry,
        )
    } else if crs_fails(space) {
        result matches Err(error) && crs_resolved(Err(error), space)
    } else if exists|i: int| 0 <= i < features.len() && !counts_fit(feature_parts(#[trigger] features[i])) {
        result matches Err(SpatialIoError::Wkb(m)) && m@ == "a WKB count exceeds four bytes"@
    } else {
        result matches Ok(plan) && plan_rows(plan, features) && crs_resolved(Ok(plan.crs), space)
    }
}

/// The variant name of a geometry.
fn geometry_name_text(geometry: &GeometryV1) -> (name: &'static str)
    ensures
        name@ == geometry_name(*geometry),
{
    match geometry {
        GeometryV1::Point(_) => "Point",
        GeometryV1::LineString(_) => "LineString",
        GeometryV1::MultiLineString(_) => "MultiLineString",
        GeometryV1::CubicPath(_) => "CubicPath",
        GeometryV1::Polygon(_) => "Polygon",
        GeometryV1::MultiPolygon(_) => "MultiPolygon",
    }
}

/// Validates a collection and computes everything the `GeoParquet` writer
/// records of it apart from the file layout.
pub fn plan_geoparquet(collection: &FeatureCollectionV1) -> (result: Result<GeoParquetPlan, SpatialIoError>)
    ensures
        plan_outcome(result, *collection),
{
    let features = &collection.features;
    if features.len() == 0 {
        return Err(
            SpatialIoError::InvalidGeometry(
                String::from_str("GeoParquet output requires at least one feature"),
            ),
        );
    }
    validate_feature_metadata(collection)?;
    let ghost fs = features@;
    let mut all_parts: Vec<(GeometryKind, Vec<Vec<Vec<Point2>>>)> = Vec::new();
    let mut row_bounds: Vec<Bounds> = Vec::new();
    let mut has_line = false;
    let mut has_polygon = false;
    let mut has_multi = false;
    let mut i: usize = 0;
    while i < features.len()
        invariant
            fs == features@,
            *features == collection.features,
            fs.len() > 0,
            metadata_issue(*collection) is None,
            i <= fs.len(),
            first_unsupported(fs, 0) == first_unsupported(fs, i as int),
            all_parts@.len() == i,
            row_bounds@.len() == i,
            forall|j: int|
                0 <= j < i ==> geometry_parts(fs[j].geometry) is Some && (#[trigger] all_parts@[j]).0
                    == feature_kind(fs[j]) && nested_positions(all_parts@[j].1@) == feature_parts(
                    fs[j],
                ),
            forall|j: int|
                0 <= j < i ==> (feature_kind(fs[j]) == GeometryKind::LineString ==> (
                #[trigger] all_parts@[j]).1@.len() == 1 && all_parts@[j].1@[0]@.len() == 1) && (
                feature_kind(fs[j]) == GeometryKind::Polygon ==> all_parts@[j].1@.len() == 1),
            forall|j: int|
                0 <= j < i ==> bounds_of(#[trigger] row_bounds@[j], row_family(fs)(j)),
            has_line == exists|j: int| 0 <= j < i && #[trigger] feature_kind(fs[j]) == GeometryKind::LineString,
            has_polygon == exists|j: int| 0 <= j < i && #[trigger] feature_kind(fs[j]) == GeometryKind::Polygon,
            has_multi == exists|j: int| 0 <= j < i && #[trigger] feature_kind(fs[j]) == GeometryKind::MultiPolygon,
        decreases fs.len() - i,
    {
        let geometry = &features[i].geometry;
        match parts_of(geometry) {
            None => {
                let mut message = String::from_str(
                    "GeoParquet writer accepts LineString, Polygon and MultiPolygon, got ",
                );
                message.append(geometry_name_text(geometry));
                return Err(SpatialIoError::UnsupportedPrimitive(message));
            },
            Some((kind, parts)) => {
                row_bounds.push(parts_bounds(&parts));
                match kind {
                    GeometryKind::LineString => {
                        has_line = true;
                    },
                    GeometryKind::Polygon => {
                        has_polygon = true;
                    },
                    GeometryKind::MultiPolygon => {
                        has_multi = true;
                    },
                }
                assert(feature_kind(fs[i as int]) == kind);
                all_parts.push((kind, parts));
            },
        }
        i = i + 1;
    }
    let bbox = fold_bounds(&row_bounds, Ghost(row_family(fs)));
    let crs = resolve_crs(&collection.spatial_reference.coordinate_space)?;
    let mut geometries: Vec<Vec<u8>> = Vec::new();
    let mut k: usize = 0;
    while k < all_parts.len()
        invariant
            fs == features@,
            *features == collection.features,
            fs.len() > 0,
            metadata_issue(*collection) is None,
            first_unsupported(fs, 0) is None,
            !crs_fails(collection.spatial_reference.coordinate_space),
            all_parts@.len() == fs.len(),
            k <= fs.len(),
            geometries@.len() == k,
            forall|j: int|
                0 <= j < fs.len() ==> geometry_parts(fs[j].geometry) is Some && (#[trigger] all_parts@[j]).0
                    == feature_kind(fs[j]) && nested_positions(all_parts@[j].1@) == feature_parts(
                    fs[j],
                ),
            forall|j: int|
                0 <= j < fs.len() ==> (feature_kind(fs[j]) == GeometryKind::LineString ==> (
                #[trigger] all_parts@[j]).1@.len() == 1 && all_parts@[j].1@[0]@.len() == 1) && (
                feature_kind(fs[j]) == GeometryKind::Polygon ==> all_parts@[j].1@.len() == 1),
            forall|j: int|
                0 <= j < k ==> counts_fit(feature_parts(#[trigger] fs[j])),
            forall|j: int|
                0 <= j < k ==> (#[trigger] geometries@[j])@ == crate::wkb::geometry_wkb(
                    feature_kind(fs[j]),
                    feature_parts(fs[j]),
                ),
        decreases fs.len() - k,
    {
        let entry = &all_parts[k];
        assert(entry.0 == feature_kind(fs[k as int]));
        let bytes = match encode_wkb(entry.0, &entry.1) {
            Ok(bytes) => bytes,
            Err(error) => {
                assert(!counts_fit(feature_parts(collection.features@[k as int])));
                return Err(error);
            },
        };
        geometries.push(bytes);
        k = k + 1;
    }
    let mut geometry_types: Vec<GeometryKind> = Vec::new();
    if has_line {
        geometry_types.push(GeometryKind::LineString);
    }
    if has_polygon {
        geometry_types.push(GeometryKind::Polygon);
    }
    if has_multi {
        geometry_types.push(GeometryKind::MultiPolygon);
    }
    let mut profiles: Vec<String> = Vec::new();
    let mut p: usize = 0;
    while p < features.len()
        invariant
            fs == features@,
            p <= fs.len(),
            forall|key: Seq<u8>|
                #[trigger] key_in(string_keys(profiles@), profiles@.len() as int, key) == exists|j: int|
                    0 <= j < p && ((#[trigger] fs[j]).conversion_profile_id matches Some(q)
                        && text_bytes(q@) == key),
        decreases fs.len() - p,
    {
        let ghost before = profiles@;
        if let Some(profile) = &features[p].conversion_profile_id {
            profiles.push(profile.clone());
            proof {
                let rk = string_keys(profiles@);
                assert forall|key: Seq<u8>|
                    #[trigger] key_in(rk, rk.len() as int, key) == exists|j: int|
                        0 <= j < p + 1 && ((#[trigger] fs[j]).conversion_profile_id matches Some(q)
                            && text_bytes(q@) == key) by {
                    if key_in(rk, rk.len() as int, key) {
                        let m = choose|m: int| 0 <= m < rk.len() && #[trigger] rk[m] == key;
                        if m < before.len() {
                            assert(string_keys(before)[m] == key);
                            assert(key_in(string_keys(before), before.len() as int, key));
                        } else {
                            assert(fs[p as int].conversion_profile_id matches Some(q) && text_bytes(q@) == key);
                        }
                    }
                    if exists|j: int|
                        0 <= j < p + 1 && ((#[trigger] fs[j]).conversion_profile_id matches Some(q)
                            && text_bytes(q@) == key) {
                        let j = choose|j: int|
                            0 <= j < p + 1 && ((#[trigger] fs[j]).conversion_profile_id matches Some(q)
                                && text_bytes(q@) == key);
                        if j < p {
                            assert(key_in(string_keys(before), before.len() as int, key));
                            let m = choose|m: int| 0 <= m < before.len() && #[trigger] string_keys(before)[m] == key;
                            assert(rk[m] == key);
                        } else {
                            assert(rk[before.len() as int] == key);
                        }
                    }
                }
            }
        } else {
            proof {
                let rk = string_keys(profiles@);
                assert forall|key: Seq<u8>|
                    #[trigger] key_in(rk, rk.len() as int, key) == exists|j: int|
                        0 <= j < p + 1 && ((#[trigger] fs[j]).conversion_profile_id matches Some(q)
                            && text_bytes(q@) == key) by {
                    if exists|j: int|
                        0 <= j < p + 1 && ((#[trigger] fs[j]).conversion_profile_id matches Some(q)
                            && text_bytes(q@) == key) {
                        let j = choose|j: int|
                            0 <= j < p + 1 && ((#[trigger] fs[j]).conversion_profile_id matches Some(q)
                                && text_bytes(q@) == key);
                        assert(j < p);
                    }
                }
            }
        }
        p = p + 1;
    }
    let conversion_profile_ids = sorted_distinct(&profiles);
    let plan = GeoParquetPlan {
        geometries,
        row_bounds,
        bbox,
        geometry_types,
        crs,
        feature_count: features.len() as u64,
        conversion_profile_ids,
    };
    proof {
        assert(plan.geometry_types@ =~= kinds_present(fs));
    }
    Ok(plan)
}

/// Two bounds denote the same four values.
pub open spec fn same_bounds(first: Bounds, second: Bounds) -> bool {
    &&& binary64_value(first.xmin) == binary64_value(second.xmin)
    &&& binary64_value(first.ymin) == binary64_value(second.ymin)
    &&& binary64_value(first.xmax) == binary64_value(second.xmax)
    &&& binary64_value(first.ymax) == binary64_value(second.ymax)
}

/// Preparing one collection twice gives the same rows: the same WKB bytes
/// and bounds per feature, the same aggregate bounds, geometry types, CRS,
/// count and profiles.
pub proof fn geoparquet_rows_depend_only_on_the_collection(
    collection: FeatureCollectionV1,
    first: GeoParquetPlan,
    second: GeoParquetPlan,
)
    requires
        plan_outcome(Ok(first), collection),
        plan_outcome(Ok(second), collection),
    ensures
        first.feature_count == second.feature_count,
        first.geometries@.len() == second.geometries@.len(),
        forall|i: int|
            0 <= i < first.geometries@.len() ==> (#[trigger] first.geometries@[i])@
                == second.geometries@[i]@,
        forall|i: int|
            0 <= i < first.row_bounds@.len() ==> same_bounds(
                #[trigger] first.row_bounds@[i],
                second.row_bounds@[i],
            ),
        same_bounds(first.bbox, second.bbox),
        first.geometry_types@ == second.geometry_types@,
        first.crs.identity@ == second.crs.identity@,
        first.crs.projjson is Some == second.crs.projjson is Some,
        first.crs.projjson matches Some(a) ==> second.crs.projjson matches Some(b) && a@ == b@,
        forall|key: Seq<u8>|
            #[trigger] key_in(
                string_keys(first.conversion_profile_ids@),
                first.conversion_profile_ids@.len() as int,
                key,
            ) == key_in(
                string_keys(second.conversion_profile_ids@),
                second.conversion_profile_ids@.len() as int,
                key,
            ),
{
    let features = collection.features@;
    assert(plan_rows(first, features));
    assert(plan_rows(second, features));
    assert forall|i: int| 0 <= i < first.row_bounds@.len() implies same_bounds(
        #[trigger] first.row_bounds@[i],
        second.row_bounds@[i],
    ) by {
        bounds_are_unique(
            first.row_bounds@[i],
            second.row_bounds@[i],
            parts_vertices(feature_parts(features[i])),
        );
    }
    bounds_are_unique(
        first.bbox,
        second.bbox,
        union_upto(row_family(features), features.len() as int),
    );
}

/// One declared attribute column, one entry per feature: the feature's
/// value when it has the declared type, `None` for a null or absent value.
#[derive(Debug, PartialEq)]
pub enum AttributeColumn {
    /// Boolean column.
    Bool(Vec<Option<bool>>),
    /// Signed 64-bit integer column.
    I64(Vec<Option<i64>>),
    /// Unsigned 64-bit integer column.
    U64(Vec<Option<u64>>),
    /// Floating-point column, as binary64 encodings.
    F64(Vec<Option<u64>>),
    /// Binary column.
    Bytes(Vec<Option<Vec<u8>>>),
    /// UTF-8 text column.
    String(Vec<Option<String>>),
}

/// The value a feature stores under a column name.
pub open spec fn stored_value(feature: FeatureV1, name: Seq<char>) -> Option<AttributeValue> {
    feature.attributes.lookup(text_bytes(name))
}

/// `column` holds, for each feature in order, its value under `name` when
/// that value has the column's type, and `None` otherwise.
pub open spec fn column_of(column: AttributeColumn, features: Seq<FeatureV1>, name: Seq<char>) -> bool {
    match column {
        AttributeColumn::Bool(values) => values@.len() == features.len() && forall|i: int|
            0 <= i < features.len() ==> #[trigger] values@[i] == match stored_value(features[i], name) {
                Some(AttributeValue::Bool(b)) => Some(b),
                _ => None,
            },
        AttributeColumn::I64(values) => values@.len() == features.len() && forall|i: int|
            0 <= i < features.len() ==> #[trigger] values@[i] == match stored_value(features[i], name) {
                Some(AttributeValue::I64(v)) => Some(v),
                _ => None,
            },
        AttributeColumn::U64(values) => values@.len() == features.len() && forall|i: int|
            0 <= i < features.len() ==> #[trigger] values@[i] == match stored_value(features[i], name) {
                Some(AttributeValue::U64(v)) => Some(v),
                _ => None,
            },
        AttributeColumn::F64(values) => values@.len() == features.len() && forall|i: int|
            0 <= i < features.len() ==> #[trigger] values@[i] == match stored_value(features[i], name) {
                Some(AttributeValue::F64(v)) => Some(v),
                _ => None,
            },
        AttributeColumn::Bytes(values) => values@.len() == features.len() && forall|i: int|
            0 <= i < features.len() ==> match (#[trigger] values@[i], stored_value(features[i], name)) {
                (Some(bytes), Some(AttributeValue::Bytes(stored))) => bytes@ == stored@,
                (None, Some(AttributeValue::Bytes(_))) => false,
                (Some(_), _) => false,
                (None, _) => true,
            },
        AttributeColumn::String(values) => values@.len() == features.len() && forall|i: int|
            0 <= i < features.len() ==> match (#[trigger] values@[i], stored_value(features[i], name)) {
                (Some(text), Some(AttributeValue::String(stored))) => text@ == stored@,
                (None, Some(AttributeValue::String(_))) => false,
                (Some(_), _) => false,
                (None, _) => true,
            },
    }
}

/// The declared type of a column.
pub open spec fn column_type(column: AttributeColumn) -> AttributeType {
    match column {
        AttributeColumn::Bool(_) => AttributeType::Bool,
        AttributeColumn::I64(_) => AttributeType::I64,
        AttributeColumn::U64(_) => AttributeType::U64,
        AttributeColumn::F64(_) => AttributeType::F64,
        AttributeColumn::Bytes(_) => AttributeType::Bytes,
        AttributeColumn::String(_) => AttributeType::String,
    }
}

fn copy_bytes(bytes: &Vec<u8>) -> (copy: Vec<u8>)
    ensures
        copy@ == bytes@,
{
    let mut copy: Vec<u8> = Vec::new();
    let mut i: usize = 0;
    while i < bytes.len()
        invariant
            i <= bytes@.len(),
            copy@ == bytes@.subrange(0, i as int),
        decreases bytes.len() - i,
    {
        copy.push(bytes[i]);
        i = i + 1;
        assert(copy@ =~= bytes@.subrange(0, i as int));
    }
    assert(copy@ =~= bytes@);
    copy
}

/// The number of entries of a column.
pub open spec fn column_len(column: AttributeColumn) -> nat {
    match column {
        AttributeColumn::Bool(values) => values@.len(),
        AttributeColumn::I64(values) => values@.len(),
        AttributeColumn::U64(values) => values@.len(),
        AttributeColumn::F64(values) => values@.len(),
        AttributeColumn::Bytes(values) => values@.len(),
        AttributeColumn::String(values) => values@.len(),
    }
}

/// Entry `i` of `column` holds exactly the attribute `value`: the same
/// variant, carrying the same boolean, number, encoding, bytes or text.
pub open spec fn entry_is(column: AttributeColumn, i: int, value: AttributeValue) -> bool {
    match (column, value) {
        (AttributeColumn::Bool(values), AttributeValue::Bool(b)) => values@[i] == Some(b),
        (AttributeColumn::I64(values), AttributeValue::I64(v)) => values@[i] == Some(v),
        (AttributeColumn::U64(values), AttributeValue::U64(v)) => values@[i] == Some(v),
        (AttributeColumn::F64(values), AttributeValue::F64(v)) => values@[i] == Some(v),
        (AttributeColumn::Bytes(values), AttributeValue::Bytes(stored)) => values@[i] matches Some(
            bytes,
        ) && bytes@ == stored@,
        (AttributeColumn::String(values), AttributeValue::String(stored)) => values@[i] matches Some(
            text,
        ) && text@ == stored@,
        _ => false,
    }
}

/// Entry `i` of `column` is empty (null).
pub open spec fn entry_empty(column: AttributeColumn, i: int) -> bool {
    match column {
        AttributeColumn::Bool(values) => values@[i] is None,
        AttributeColumn::I64(values) => values@[i] is None,
        AttributeColumn::U64(values) => values@[i] is None,
        AttributeColumn::F64(values) => values@[i] is None,
        AttributeColumn::Bytes(values) => values@[i] is None,
        AttributeColumn::String(values) => values@[i] is None,
    }
}

/// A column has one entry per feature; each entry holds the value the
/// feature stores under `name` when that value has the column's type, and
/// is empty when the feature stores nothing, a null, or a value of another
/// type.
pub open spec fn copies_stored_values(
    column: AttributeColumn,
    features: Seq<FeatureV1>,
    field: AttributeFieldV1,
) -> bool {
    &&& column_len(column) == features.len()
    &&& forall|i: int|
        0 <= i < features.len() ==> match stored_value(#[trigger] features[i], field.name@) {
            Some(value) => if is_of_type(value, field.value_type) {
                entry_is(column, i, value)
            } else {
                entry_empty(column, i)
            },
            None => entry_empty(column, i),
        }
}

/// A column built for a declared field copies, row by row, the value each
/// feature stores under the field's name, exactly when it has the field's
/// type.
pub proof fn attribute_columns_copy_stored_values(
    column: AttributeColumn,
    features: Seq<FeatureV1>,
    field: AttributeFieldV1,
)
    requires
        column_type(column) == field.value_type,
        column_of(column, features, field.name@),
    ensures
        copies_stored_values(column, features, field),
{
    let name = field.name@;
    assert forall|i: int| 0 <= i < features.len() implies match stored_value(
        #[trigger] features[i],
        name,
    ) {
        Some(value) => if is_of_type(value, field.value_type) {
            entry_is(column, i, value)
        } else {
            entry_empty(column, i)
        },
        None => entry_empty(column, i),
    } by {
        match column {
            AttributeColumn::Bool(values) => assert(values@[i] == values@[i]),
            AttributeColumn::I64(values) => assert(values@[i] == values@[i]),
            AttributeColumn::U64(values) => assert(values@[i] == values@[i]),
            AttributeColumn::F64(values) => assert(values@[i] == values@[i]),
            AttributeColumn::Bytes(values) => assert(values@[i] == values@[i]),
            AttributeColumn::String(values) => assert(values@[i] == values@[i]),
        }
    }
}

/// The values of one declared attribute column, in feature order.
pub fn attribute_column(features: &Vec<FeatureV1>, field: &AttributeFieldV1) -> (column: AttributeColumn)
    ensures
        column_type(column) == field.value_type,
        column_of(column, features@, field.name@),
        copies_stored_values(column, features@, *field),
{
    let column = attribute_column_values(features, field);
    proof {
        attribute_columns_copy_stored_values(column, features@, *field);
    }
    column
}

/// The values of one declared attribute column, in feature order, as the
/// column builder computes them.
fn attribute_column_values(features: &Vec<FeatureV1>, field: &AttributeFieldV1) -> (column: AttributeColumn)
    ensures
        column_type(column) == field.value_type,
        column_of(column, features@, field.name@),
{
    let name = field.name.as_str();
    match field.value_type {
        AttributeType::Bool => {
            let mut values: Vec<Option<bool>> = Vec::new();
            let mut i: usize = 0;
            while i < features.len()
                invariant
                    name@ == field.name@,
                    i <= features@.len(),
                    values@.len() == i,
                    forall|j: int| 0 <= j < i ==> #[trigger] values@[j] == match stored_value(features@[j], name@) {
                        Some(AttributeValue::Bool(b)) => Some(b),
                        _ => None,
                    },
                decreases features.len() - i,
            {
                let entry = match features[i].attributes.get(name) {
                    Some(AttributeValue::Bool(b)) => Some(*b),
                    _ => None,
                };
                values.push(entry);
                i = i + 1;
            }
            AttributeColumn::Bool(values)
        },
        AttributeType::I64 => {
            let mut values: Vec<Option<i64>> = Vec::new();
            let mut i: usize = 0;
            while i < features.len()
                invariant
                    name@ == field.name@,
                    i <= features@.len(),
                    values@.len() == i,
                    forall|j: int| 0 <= j < i ==> #[trigger] values@[j] == match stored_value(features@[j], name@) {
                        Some(AttributeValue::I64(v)) => Some(v),
                        _ => None,
                    },
                decreases features.len() - i,
            {
                let entry = match features[i].attributes.get(name) {
                    Some(AttributeValue::I64(v)) => Some(*v),
                    _ => None,
                };
                values.push(entry);
                i = i + 1;
            }
            AttributeColumn::I64(values)
        },
        AttributeType::U64 => {
            let mut values: Vec<Option<u64>> = Vec::new();
            let mut i: usize = 0;
            while i < features.len()
                invariant
                    name@ == field.name@,
                    i <= features@.len(),
                    values@.len() == i,
                    forall|j: int| 0 <= j < i ==> #[trigger] values@[j] == match stored_value(features@[j], name@) {
                        Some(AttributeValue::U64(v)) => Some(v),
                        _ => None,
                    },
                decreases features.len() - i,
            {
                let entry = match features[i].attributes.get(name) {
                    Some(AttributeValue::U64(v)) => Some(*v),
                    _ => None,
                };
                values.push(entry);
                i = i + 1;
            }
            AttributeColumn::U64(values)
        },
        AttributeType::F64 => {
            let mut values: Vec<Option<u64>> = Vec::new();
            let mut i: usize = 0;
            while i < features.len()
                invariant
                    name@ == field.name@,
                    i <= features@.len(),
                    values@.len() == i,
                    forall|j: int| 0 <= j < i ==> #[trigger] values@[j] == match stored_value(features@[j], name@) {
                        Some(AttributeValue::F64(v)) => Some(v),
                        _ => None,
                    },
                decreases features.len() - i,
            {
                let entry = match features[i].attributes.get(name) {
                    Some(AttributeValue::F64(v)) => Some(*v),
                    _ => None,
                };
                values.push(entry);
                i = i + 1;
            }
            AttributeColumn::F64(values)
        },
        AttributeType::Bytes => {
            let mut values: Vec<Option<Vec<u8>>> = Vec::new();
            let mut i: usize = 0;
            while i < features.len()
                invariant
                    name@ == field.name@,
                    i <= features@.len(),
                    values@.len() == i,
                    forall|j: int| 0 <= j < i ==> match (#[trigger] values@[j], stored_value(features@[j], name@)) {
                        (Some(bytes), Some(AttributeValue::Bytes(stored))) => bytes@ == stored@,
                        (None, Some(AttributeValue::Bytes(_))) => false,
                        (Some(_), _) => false,
                        (None, _) => true,
                    },
                decreases features.len() - i,
            {
                let entry = match features[i].attributes.get(name) {
                    Some(AttributeValue::Bytes(bytes)) => Some(copy_bytes(bytes)),
                    _ => None,
                };
                values.push(entry);
                i = i + 1;
            }
            AttributeColumn::Bytes(values)
        },
        AttributeType::String => {
            let mut values: Vec<Option<String>> = Vec::new();
            let mut i: usize = 0;
            while i < features.len()
                invariant
                    name@ == field.name@,
                    i <= features@.len(),
                    values@.len() == i,
                    forall|j: int| 0 <= j < i ==> match (#[trigger] values@[j], stored_value(features@[j], name@)) {
                        (Some(text), Some(AttributeValue::String(stored))) => text@ == stored@,
                        (None, Some(AttributeValue::String(_))) => false,
                        (Some(_), _) => false,
                        (None, _) => true,
                    },
                decreases features.len() - i,
            {
                let entry = match features[i].attributes.get(name) {
                    Some(AttributeValue::String(text)) => Some(text.clone()),
                    _ => None,
                };
                values.push(entry);
                i = i + 1;
            }
            AttributeColumn::String(values)
        },
    }
}

/// The provenance columns of the written file, one row per feature.
#[derive(Debug)]
pub struct ProvenanceColumns {
    /// `feature_id` of each feature.
    pub feature_ids: Vec<String>,
    /// `source_primitive_id` of each feature.
    pub source_primitive_ids: Vec<String>,
    /// `group_id` of each feature; `None` where it has none.
    pub group_ids: Vec<Option<String>>,
    /// `conversion_profile_id` of each feature; `None` where it has none.
    pub conversion_profile_ids: Vec<Option<String>>,
    /// `conversion_tolerance` (binary64 encoding) of each feature; `None`
    /// where it has none.
    pub conversion_tolerances: Vec<Option<u64>>,
}

/// An optional text holds the same characters as another, or both are absent.
pub open spec fn same_optional_text(a: Option<String>, b: Option<String>) -> bool {
    match (a, b) {
        (Some(x), Some(y)) => x@ == y@,
        (None, None) => true,
        _ => false,
    }
}

/// A copy of an optional text.
fn copy_optional_text(text: &Option<String>) -> (copy: Option<String>)
    ensures
        same_optional_text(copy, *text),
{
    match text {
        Some(value) => Some(value.clone()),
        None => None,
    }
}

/// The provenance columns: row `i` holds the identities, group, profile and
/// tolerance of feature `i`, with `None` where the feature has no value.
pub fn provenance_columns(features: &Vec<FeatureV1>) -> (columns: ProvenanceColumns)
    ensures
        columns.feature_ids@.len() == features@.len(),
        columns.source_primitive_ids@.len() == features@.len(),
        columns.group_ids@.len() == features@.len(),
        columns.conversion_profile_ids@.len() == features@.len(),
        columns.conversion_tolerances@.len() == features@.len(),
        forall|i: int|
            0 <= i < features@.len() ==> {
                &&& (#[trigger] columns.feature_ids@[i])@ == features@[i].feature_id@
                &&& columns.source_primitive_ids@[i]@ == features@[i].source_primitive_id@
                &&& same_optional_text(columns.group_ids@[i], features@[i].group_id)
                &&& same_optional_text(
                    columns.conversion_profile_ids@[i],
                    features@[i].conversion_profile_id,
                )
                &&& columns.conversion_tolerances@[i] == features@[i].conversion_tolerance
            },
{
    let mut feature_ids: Vec<String> = Vec::new();
    let mut source_primitive_ids: Vec<String> = Vec::new();
    let mut group_ids: Vec<Option<String>> = Vec::new();
    let mut conversion_profile_ids: Vec<Option<String>> = Vec::new();
    let mut conversion_tolerances: Vec<Option<u64>> = Vec::new();
    let mut i: usize = 0;
    while i < features.len()
        invariant
            i <= features@.len(),
            feature_ids@.len() == i,
            source_primitive_ids@.len() == i,
            group_ids@.len() == i,
            conversion_profile_ids@.len() == i,
            conversion_tolerances@.len() == i,
            forall|j: int|
                0 <= j < i ==> {
                    &&& (#[trigger] feature_ids@[j])@ == features@[j].feature_id@
                    &&& source_primitive_ids@[j]@ == features@[j].source_primitive_id@
                    &&& same_optional_text(group_ids@[j], features@[j].group_id)
                    &&& same_optional_text(
                        conversion_profile_ids@[j],
                        features@[j].conversion_profile_id,
                    )
                    &&& conversion_tolerances@[j] == features@[j].conversion_tolerance
                },
        decreases features.len() - i,
    {
        let feature = &features[i];
        feature_ids.push(feature.feature_id.clone());
        source_primitive_ids.push(feature.source_primitive_id.clone());
        group_ids.push(copy_optional_text(&feature.group_id));
        conversion_profile_ids.push(copy_optional_text(&feature.conversion_profile_id));
        conversion_tolerances.push(feature.conversion_tolerance);
        i = i + 1;
    }
    ProvenanceColumns {
        feature_ids,
        source_primitive_ids,
        group_ids,
        conversion_profile_ids,
        conversion_tolerances,
    }
}

/// What a column of the written file holds.
#[derive(Debug, Clone, Copy, PartialEq, Eq, Structural)]
pub enum ColumnKind {
    /// UTF-8 text.
    Utf8,
    /// 64-bit floating point.
    Float64,
    /// A declared attribute of the given type.
    Attribute(AttributeType),
    /// WKB geometry bytes.
    Wkb,
    /// The per-row `xmin`, `ymin`, `xmax`, `ymax` bounds struct.
    BoundsStruct,
}

/// One column of the written file: its name, what it holds, and whether it
/// may hold nulls.
#[derive(Debug, Clone)]
pub struct ColumnSpec {
    /// Column name.
    pub name: String,
    /// What the column holds.
    pub kind: ColumnKind,
    /// Whether nulls are allowed.
    pub nullable: bool,
}

/// A column as plain values.
pub open spec fn column_view(column: ColumnSpec) -> (Seq<char>, ColumnKind, bool) {
    (column.name@, column.kind, column.nullable)
}

/// The column layout of the file: the writer's five provenance columns, the
/// declared attributes in declaration order with their declared types and
/// nullability, then the geometry and the bounds covering.
pub open spec fn layout_spec(schema: Seq<AttributeFieldV1>) -> Seq<(Seq<char>, ColumnKind, bool)> {
    seq![
        ("feature_id"@, ColumnKind::Utf8, false),
        ("source_primitive_id"@, ColumnKind::Utf8, false),
        ("group_id"@, ColumnKind::Utf8, true),
        ("conversion_profile_id"@, ColumnKind::Utf8, true),
        ("conversion_tolerance"@, ColumnKind::Float64, true),
    ] + schema.map_values(
        |f: AttributeFieldV1| (f.name@, ColumnKind::Attribute(f.value_type), f.nullable),
    ) + seq![("geometry"@, ColumnKind::Wkb, false), ("bbox"@, ColumnKind::BoundsStruct, false)]
}

fn column(name: &str, kind: ColumnKind, nullable: bool) -> (spec: ColumnSpec)
    ensures
        column_view(spec) == (name@, kind, nullable),
{
    ColumnSpec { name: String::from_str(name), kind, nullable }
}

/// The columns of the written file, in order.
pub fn geoparquet_columns(schema: &Vec<AttributeFieldV1>) -> (columns: Vec<ColumnSpec>)
    ensures
        columns@.map_values(|c: ColumnSpec| column_view(c)) == layout_spec(schema@),
{
    let mut columns: Vec<ColumnSpec> = Vec::new();
    columns.push(column("feature_id", ColumnKind::Utf8, false));
    columns.push(column("source_primitive_id", ColumnKind::Utf8, false));
    columns.push(column("group_id", ColumnKind::Utf8, true));
    columns.push(column("conversion_profile_id", ColumnKind::Utf8, true));
    columns.push(column("conversion_tolerance", ColumnKind::Float64, true));
    let ghost fixed = seq![
        ("feature_id"@, ColumnKind::Utf8, false),
        ("source_primitive_id"@, ColumnKind::Utf8, false),
        ("group_id"@, ColumnKind::Utf8, true),
        ("conversion_profile_id"@, ColumnKind::Utf8, true),
        ("conversion_tolerance"@, ColumnKind::Float64, true),
    ];
    let ghost attributes = schema@.map_values(
        |f: AttributeFieldV1| (f.name@, ColumnKind::Attribute(f.value_type), f.nullable),
    );
    assert(columns@.map_values(|c: ColumnSpec| column_view(c)) =~= fixed);
    let mut i: usize = 0;
    while i < schema.len()
        invariant
            i <= schema@.len(),
            attributes == schema@.map_values(
                |f: AttributeFieldV1| (f.name@, ColumnKind::Attribute(f.value_type), f.nullable),
            ),
            columns@.map_values(|c: ColumnSpec| column_view(c)) == fixed + attributes.subrange(
                0,
                i as int,
            ),
        decreases schema.len() - i,
    {
        let field = &schema[i];
        let next = ColumnSpec {
            name: field.name.clone(),
            kind: ColumnKind::Attribute(field.value_type),
            nullable: field.nullable,
        };
        let ghost before = columns@;
        columns.push(next);
        assert(columns@.map_values(|c: ColumnSpec| column_view(c)) =~= before.map_values(
            |c: ColumnSpec| column_view(c),
        ).push(attributes[i as int]));
        assert(fixed + attributes.subrange(0, i + 1) =~= (fixed + attributes.subrange(
            0,
            i as int,
        )).push(attributes[i as int]));
        i = i + 1;
    }
    let ghost middle = columns@;
    columns.push(column("geometry", ColumnKind::Wkb, false));
    columns.push(column("bbox", ColumnKind::BoundsStruct, false));
    assert(attributes.subrange(0, schema@.len() as int) =~= attributes);
    assert(columns@.map_values(|c: ColumnSpec| column_view(c)) =~= middle.map_values(
        |c: ColumnSpec| column_view(c),
    ) + seq![("geometry"@, ColumnKind::Wkb, false), ("bbox"@, ColumnKind::BoundsStruct, false)]);
    columns
}

/// The SHA-256 digest of a byte string.
pub uninterp spec fn sha256_digest(bytes: Seq<u8>) -> Seq<u8>;

/// Hashes with `sha2::Sha256::digest`: the result is [`sha256_digest`] of the
/// bytes, and a SHA-256 output is 32 bytes long.
#[verifier::external_body]
fn sha256(bytes: &[u8]) -> (digest: Vec<u8>)
    ensures
        digest@ == sha256_digest(bytes@),
        digest@.len() == 32,
{
    Sha256::digest(bytes).to_vec()
}

/// The lowercase hexadecimal digit of a value below 16.
pub open spec fn hex_digit(value: nat) -> char {
    if value < 10 {
        (48 + value) as char
    } else {
        (87 + value) as char
    }
}

/// Lowercase hexadecimal text of bytes, high nibble first.
pub open spec fn lower_hex(bytes: Seq<u8>) -> Seq<char>
    decreases bytes.len(),
{
    if bytes.len() == 0 {
        seq![]
    } else {
        lower_hex(bytes.drop_last()) + seq![
            hex_digit((bytes.last() / 16) as nat),
            hex_digit((bytes.last() % 16) as nat),
        ]
    }
}

/// Encodes with `hex::encode`, which writes each byte as two characters of
/// `0123456789abcdef`, high nibble first.
#[verifier::external_body]
fn hex_encode(bytes: &[u8]) -> (text: String)
    ensures
        text@ == lower_hex(bytes@),
{
    hex::encode(bytes)
}

/// Length and lowercase SHA-256 digest of a published artifact's bytes.
pub fn attest_bytes(bytes: &[u8]) -> (attestation: (u64, String))
    ensures
        attestation.0 == bytes@.len(),
        attestation.1@ == lower_hex(sha256_digest(bytes@)),
        attestation.1@.len() == 64,
{
    let digest = sha256(bytes);
    let text = hex_encode(digest.as_slice());
    proof {
        lemma_lower_hex_len(digest@);
    }
    (bytes.len() as u64, text)
}

/// Two characters per byte.
proof fn lemma_lower_hex_len(bytes: Seq<u8>)
    ensures
        lower_hex(bytes).len() == 2 * bytes.len(),
    decreases bytes.len(),
{
    if bytes.len() > 0 {
        lemma_lower_hex_len(bytes.drop_last());
    }
}

} // verus!
