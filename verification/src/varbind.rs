//! Variable bindings as text.

use crate::display::{dotted_address, format_network_address};
use crate::event::{
    json_insert, json_members, json_new, json_object, json_tree, lemma_text_members_union,
    objects_view, text_members, text_objects,
};
use crate::mib::resolver::{resolve_text, MibResolver, OidResolution, ResolutionView};
use crate::mib::table::SymbolView;
use crate::model::{
    variables_view, BoundValue, ObjectValue, ObjectView, TagClass, UnknownValue, UnknownView,
    VarBindView, Variable, VariableView,
};
use crate::text::{
    chars_of, decimal, digit_char, digit_to_char, opt_text, render_decimal, render_signed,
    signed_decimal,
};
use crate::tree::Tree;
use vstd::prelude::*;
use vstd::string::*;
use vstd::utf8::*;

verus! {

/// An octet as two hexadecimal digits.
pub open spec fn octet_hex(octet: u8) -> Seq<char> {
    seq![digit_char(octet as nat / 16), digit_char(octet as nat % 16)]
}

/// Octets as hexadecimal digits, two for each.
pub open spec fn hex(bytes: Seq<u8>) -> Seq<char>
    decreases bytes.len(),
{
    if bytes.len() == 0 {
        Seq::empty()
    } else {
        hex(bytes.drop_last()) + octet_hex(bytes.last())
    }
}

/// Writes octets as hexadecimal digits, two for each.
pub fn bytes_to_hex(bytes: &[u8]) -> (r: String)
    ensures
        r@ == hex(bytes@),
{
    let mut output = String::new();
    for index in 0..bytes.len()
        invariant
            output@ == hex(bytes@.take(index as int)),
    {
        let ghost before = output@;
        let octet: u8 = bytes[index];
        assert(bytes@.take(index + 1).drop_last() =~= bytes@.take(index as int));
        output.push(digit_to_char(octet / 16));
        output.push(digit_to_char(octet % 16));
        assert(output@ =~= before + octet_hex(octet));
    }
    assert(bytes@.take(bytes@.len() as int) =~= bytes@);
    output
}

/// Hexadecimal text has two digits for each octet.
pub proof fn hex_has_two_digits_per_octet(bytes: Seq<u8>)
    ensures
        hex(bytes).len() == 2 * bytes.len(),
    decreases bytes.len(),
{
    if bytes.len() > 0 {
        hex_has_two_digits_per_octet(bytes.drop_last());
    }
}

/// Hexadecimal text tells the octets: no other octets have it.
pub proof fn hex_tells_the_octets(left: Seq<u8>, right: Seq<u8>)
    requires
        hex(left) == hex(right),
    ensures
        left == right,
    decreases left.len(),
{
    hex_has_two_digits_per_octet(left);
    hex_has_two_digits_per_octet(right);
    if left.len() > 0 {
        let last = 2 * left.len() - 1;
        hex_has_two_digits_per_octet(left.drop_last());
        hex_has_two_digits_per_octet(right.drop_last());
        assert(hex(left)[last] == digit_char(left.last() as nat % 16));
        assert(hex(right)[last] == digit_char(right.last() as nat % 16));
        assert(hex(left)[last - 1] == digit_char(left.last() as nat / 16));
        assert(hex(right)[last - 1] == digit_char(right.last() as nat / 16));
        assert(hex(left).take(last - 1) =~= hex(left.drop_last()));
        assert(hex(right).take(last - 1) =~= hex(right.drop_last()));
        hex_tells_the_octets(left.drop_last(), right.drop_last());
        assert(left =~= left.drop_last().push(left.last()));
        assert(right =~= right.drop_last().push(right.last()));
    } else {
        assert(left =~= right);
    }
}

/// The control characters of Unicode.
pub open spec fn is_control(character: char) -> bool {
    character as u32 <= 0x1f || 0x7f <= character as u32 <= 0x9f
}

/// Text without control characters but line breaks, carriage returns and tabs.
pub open spec fn is_printable_text(text: Seq<char>) -> bool {
    forall|i: int|
        0 <= i < text.len() ==> !is_control(#[trigger] text[i]) || text[i] == '\n' || text[i] == '\r'
            || text[i] == '\t'
}

/// The text of octets that are printable UTF-8.
pub open spec fn printable_text(bytes: Seq<u8>) -> Option<Seq<char>> {
    if valid_utf8(bytes) && is_printable_text(decode_utf8(bytes)) {
        Some(decode_utf8(bytes))
    } else {
        None
    }
}

/// `std::str::from_utf8` gives the text of bytes that are valid UTF-8, and an error for other
/// bytes.
#[verifier::external_body]
fn utf8_text(bytes: &[u8]) -> (r: Option<&str>)
    ensures
        match r {
            Some(text) => valid_utf8(bytes@) && text@ == decode_utf8(bytes@),
            None => !valid_utf8(bytes@),
        },
{
    std::str::from_utf8(bytes).ok()
}

/// The text of octets that are printable UTF-8.
pub fn printable_utf8(bytes: &[u8]) -> (r: Option<&str>)
    ensures
        match r {
            Some(text) => printable_text(bytes@) == Some(text@),
            None => printable_text(bytes@) is None,
        },
{
    let text = match utf8_text(bytes) {
        Some(text) => text,
        None => {
            return None;
        },
    };
    let chars = chars_of(text);
    for index in 0..chars.len()
        invariant
            chars@ == text@,
            valid_utf8(bytes@),
            text@ == decode_utf8(bytes@),
            forall|i: int|
                0 <= i < index ==> !is_control(#[trigger] text@[i]) || text@[i] == '\n' || text@[i]
                    == '\r' || text@[i] == '\t',
    {
        let character = chars[index];
        let code: u32 = character as u32;
        if (code <= 0x1f || (0x7f <= code && code <= 0x9f)) && character != '\n' && character
            != '\r' && character != '\t' {
            assert(is_control(text@[index as int]));
            return None;
        }
    }
    Some(text)
}

/// A value of a variable binding as text.
#[derive(Clone, Debug, PartialEq, Eq)]
pub struct FormattedVarbindValue {
    pub value_type: &'static str,
    pub value: String,
    /// The octets of a value that is made of octets.
    pub value_bytes_hex: Option<String>,
}

/// A [`FormattedVarbindValue`] as characters.
pub ghost struct FormattedView {
    pub value_type: Seq<char>,
    pub value: Seq<char>,
    pub value_bytes_hex: Option<Seq<char>>,
}

impl View for FormattedVarbindValue {
    type V = FormattedView;

    open spec fn view(&self) -> FormattedView {
        FormattedView {
            value_type: self.value_type@,
            value: self.value@,
            value_bytes_hex: opt_text(self.value_bytes_hex),
        }
    }
}

/// A value that is not made of octets.
pub open spec fn plain_form(value_type: Seq<char>, value: Seq<char>) -> FormattedView {
    FormattedView { value_type, value, value_bytes_hex: None }
}

/// A value that is made of octets.
pub open spec fn octets_form(
    value_type: Seq<char>,
    value: Seq<char>,
    bytes: Seq<u8>,
) -> FormattedView {
    FormattedView { value_type, value, value_bytes_hex: Some(hex(bytes)) }
}

/// A value that is not made of octets.
pub fn formatted_value(value_type: &'static str, value: String) -> (r: FormattedVarbindValue)
    ensures
        r@ == plain_form(value_type@, value@),
{
    FormattedVarbindValue { value_type, value, value_bytes_hex: None }
}

/// A value that is made of octets.
pub fn formatted_bytes_value(value_type: &'static str, value: String, bytes: &[u8]) -> (r:
    FormattedVarbindValue)
    ensures
        r@ == octets_form(value_type@, value@, bytes@),
{
    FormattedVarbindValue { value_type, value, value_bytes_hex: Some(bytes_to_hex(bytes)) }
}

/// A value of an unknown type.
pub open spec fn unknown_text(value: UnknownView) -> Seq<char> {
    "class="@ + value.class.spec_name() + ",constructed="@ + (if value.constructed {
        "true"@
    } else {
        "false"@
    }) + ",tag="@ + decimal(value.tag as nat) + ",bytes="@ + hex(value.bytes)
}

/// Formats a value of an unknown type.
pub fn format_unknown_value(class: TagClass, constructed: bool, tag: u32, bytes: &[u8]) -> (r:
    String)
    ensures
        r@ == unknown_text((UnknownView { class, constructed, tag, bytes: bytes@ })),
{
    "class=".to_owned().concat(class.name()).concat(",constructed=").concat(
        if constructed {
            "true"
        } else {
            "false"
        },
    ).concat(",tag=").concat(render_decimal(tag as u64).as_str()).concat(",bytes=").concat(
        bytes_to_hex(bytes).as_str(),
    )
}

/// The type and the text of a value of an object.
pub open spec fn object_form(value: ObjectView) -> FormattedView {
    match value {
        ObjectView::Number(value) => plain_form("integer"@, signed_decimal(value as int)),
        ObjectView::String(value) => octets_form(
            "octet_string"@,
            match printable_text(value) {
                Some(text) => text,
                None => hex(value),
            },
            value,
        ),
        ObjectView::Object(value) => plain_form("object_identifier"@, value.text),
        ObjectView::BitString { unused_bits, data } => octets_form(
            "bit_string"@,
            "unused_bits="@ + decimal(unused_bits as nat) + ",bytes="@ + hex(data),
            data,
        ),
        ObjectView::IpAddress(value) => plain_form("ip_address"@, dotted_address(value)),
        ObjectView::Counter32(value) => plain_form("counter32"@, decimal(value as nat)),
        ObjectView::Gauge32(value) => plain_form("gauge32"@, decimal(value as nat)),
        ObjectView::TimeTicks(value) => plain_form("timeticks"@, decimal(value as nat)),
        ObjectView::Opaque(value) => octets_form("opaque"@, hex(value), value),
        ObjectView::Counter64(value) => plain_form("counter64"@, decimal(value as nat)),
        ObjectView::UInteger32(value) => plain_form("unsigned32"@, decimal(value as nat)),
        ObjectView::NsapAddress(value) => octets_form("nsap_address"@, hex(value), value),
        ObjectView::Empty => plain_form("empty"@, "empty"@),
        ObjectView::UnknownSimple(value) => octets_form(
            "unknown_simple"@,
            unknown_text(value),
            value.bytes,
        ),
        ObjectView::UnknownApplication(value) => octets_form(
            "unknown_application"@,
            unknown_text(value),
            value.bytes,
        ),
    }
}

/// The type and the text of what a variable is bound to.
pub open spec fn value_form(value: VarBindView) -> FormattedView {
    match value {
        VarBindView::Value(value) => object_form(value),
        VarBindView::Unspecified => plain_form("unspecified"@, "unspecified"@),
        VarBindView::NoSuchObject => plain_form("no_such_object"@, "noSuchObject"@),
        VarBindView::NoSuchInstance => plain_form("no_such_instance"@, "noSuchInstance"@),
        VarBindView::EndOfMibView => plain_form("end_of_mib_view"@, "endOfMibView"@),
    }
}

fn format_octet_string(value: &[u8]) -> (r: FormattedVarbindValue)
    ensures
        r@ == object_form(ObjectView::String(value@)),
{
    let text: String = match printable_utf8(value) {
        Some(text) => text.to_owned(),
        None => bytes_to_hex(value),
    };
    formatted_bytes_value("octet_string", text, value)
}

fn format_unknown(value_type: &'static str, value: &UnknownValue) -> (r: FormattedVarbindValue)
    ensures
        r@ == octets_form(value_type@, unknown_text(value@), value.bytes@),
{
    formatted_bytes_value(
        value_type,
        format_unknown_value(value.class, value.constructed, value.tag, value.bytes.as_slice()),
        value.bytes.as_slice(),
    )
}

/// Formats a value of an object.
pub fn format_object_value(value: &ObjectValue) -> (r: FormattedVarbindValue)
    ensures
        r@ == object_form(value@),
{
    match value {
        ObjectValue::Number(value) => formatted_value("integer", render_signed(*value as i64)),
        ObjectValue::String(value) => format_octet_string(value.as_slice()),
        ObjectValue::Object(value) => formatted_value("object_identifier", value.text.clone()),
        ObjectValue::BitString { unused_bits, data } => formatted_bytes_value(
            "bit_string",
            "unused_bits=".to_owned().concat(render_decimal(*unused_bits as u64).as_str()).concat(
                ",bytes=",
            ).concat(bytes_to_hex(data.as_slice()).as_str()),
            data.as_slice(),
        ),
        ObjectValue::IpAddress(value) => formatted_value(
            "ip_address",
            format_network_address(*value),
        ),
        ObjectValue::Counter32(value) => formatted_value("counter32", render_decimal(*value as u64)),
        ObjectValue::Gauge32(value) => formatted_value("gauge32", render_decimal(*value as u64)),
        ObjectValue::TimeTicks(value) => formatted_value("timeticks", render_decimal(*value as u64)),
        ObjectValue::Opaque(value) => formatted_bytes_value(
            "opaque",
            bytes_to_hex(value.as_slice()),
            value.as_slice(),
        ),
        ObjectValue::Counter64(value) => formatted_value("counter64", render_decimal(*value)),
        ObjectValue::UInteger32(value) => formatted_value(
            "unsigned32",
            render_decimal(*value as u64),
        ),
        ObjectValue::NsapAddress(value) => formatted_bytes_value(
            "nsap_address",
            bytes_to_hex(value.as_slice()),
            value.as_slice(),
        ),
        ObjectValue::Empty => formatted_value("empty", "empty".to_owned()),
        ObjectValue::UnknownSimple(value) => format_unknown("unknown_simple", value),
        ObjectValue::UnknownApplication(value) => format_unknown("unknown_application", value),
    }
}

/// Formats what a variable is bound to.
pub fn format_varbind_value(value: &BoundValue) -> (r: FormattedVarbindValue)
    ensures
        r@ == value_form(value@),
{
    match value {
        BoundValue::Value(value) => format_object_value(value),
        BoundValue::Unspecified => formatted_value("unspecified", "unspecified".to_owned()),
        BoundValue::NoSuchObject => formatted_value("no_such_object", "noSuchObject".to_owned()),
        BoundValue::NoSuchInstance => formatted_value(
            "no_such_instance",
            "noSuchInstance".to_owned(),
        ),
        BoundValue::EndOfMibView => formatted_value("end_of_mib_view", "endOfMibView".to_owned()),
    }
}

/// What is known of an object identifier, under names that start with `prefix`.
pub open spec fn resolution_fields(prefix: Seq<char>, resolution: ResolutionView) -> Map<
    Seq<char>,
    Seq<char>,
> {
    let named = Map::<Seq<char>, Seq<char>>::empty().insert(prefix + "_name"@, resolution.name);
    let placed = match resolution.module {
        Some(module) => named.insert(prefix + "_module"@, module),
        None => named,
    };
    let known = placed.insert(prefix + "_symbol"@, resolution.symbol);
    match resolution.instance {
        Some(instance) => known.insert(prefix + "_instance"@, instance),
        None => known,
    }
}

/// What is known of an object identifier, if anything is.
pub open spec fn known_oid_fields(
    prefix: Seq<char>,
    oid: Seq<char>,
    names: Map<Seq<u32>, SymbolView>,
) -> Map<Seq<char>, Seq<char>> {
    match resolve_text(names, oid) {
        Some(resolution) => resolution_fields(prefix, resolution),
        None => Map::empty(),
    }
}

/// The fields with what is known of an object identifier, if anything is.
pub open spec fn with_known_oid(
    fields: Map<Seq<char>, Seq<char>>,
    prefix: Seq<char>,
    oid: Seq<char>,
    names: Map<Seq<u32>, SymbolView>,
) -> Map<Seq<char>, Seq<char>> {
    fields.union_prefer_right(known_oid_fields(prefix, oid, names))
}

/// Adds what is known of an object identifier.
pub fn insert_json_resolution(
    value: &mut serde_json::Map<String, serde_json::Value>,
    prefix: &str,
    resolution: OidResolution,
)
    ensures
        json_members(*final(value)) == json_members(*old(value)).union_prefer_right(
            text_members(resolution_fields(prefix@, resolution@)),
        ),
{
    let ghost before = json_members(*value);
    let ghost added = text_members(resolution_fields(prefix@, resolution@));
    json_insert(value, prefix.to_owned().concat("_name"), resolution.name);
    if let Some(module) = resolution.module {
        json_insert(value, prefix.to_owned().concat("_module"), module);
    }
    json_insert(value, prefix.to_owned().concat("_symbol"), resolution.symbol);
    if let Some(instance) = resolution.instance {
        json_insert(value, prefix.to_owned().concat("_instance"), instance);
    }
    assert(json_members(*value) =~= before.union_prefer_right(added));
}

/// Adds what is known of an object identifier, if anything is.
pub fn insert_json_oid_resolution(
    value: &mut serde_json::Map<String, serde_json::Value>,
    prefix: &str,
    oid: &str,
    mib_resolver: &MibResolver,
)
    ensures
        json_members(*final(value)) == json_members(*old(value)).union_prefer_right(
            text_members(known_oid_fields(prefix@, oid@, mib_resolver@)),
        ),
{
    if let Some(resolution) = mib_resolver.resolve(oid) {
        insert_json_resolution(value, prefix, resolution);
    } else {
        assert(json_members(*value).union_prefer_right(
            text_members(known_oid_fields(prefix@, oid@, mib_resolver@)),
        ) =~= json_members(*value));
    }
}

/// The fields that every variable binding has.
pub open spec fn basic_fields(variable: VariableView) -> Map<Seq<char>, Seq<char>> {
    let form = value_form(variable.val);
    let basic = Map::<Seq<char>, Seq<char>>::empty().insert("oid"@, variable.oid.text).insert(
        "type"@,
        form.value_type,
    ).insert("value"@, form.value);
    match form.value_bytes_hex {
        Some(digits) => basic.insert("value_bytes_hex"@, digits),
        None => basic,
    }
}

/// The fields of a variable binding: the numeric object identifier, the type and the text of the
/// value, and what is known of the identifier, and of a value that is one.
pub open spec fn varbind_fields(variable: VariableView, names: Map<Seq<u32>, SymbolView>) -> Map<
    Seq<char>,
    Seq<char>,
> {
    let fields = with_known_oid(basic_fields(variable), "oid"@, variable.oid.text, names);
    match variable.val {
        VarBindView::Value(ObjectView::Object(oid)) => with_known_oid(
            fields,
            "value_oid"@,
            oid.text,
            names,
        ),
        _ => fields,
    }
}

/// The fields of each variable binding.
pub open spec fn all_varbind_fields(
    variables: Seq<VariableView>,
    names: Map<Seq<u32>, SymbolView>,
) -> Seq<Map<Seq<char>, Seq<char>>> {
    variables.map_values(|variable: VariableView| varbind_fields(variable, names))
}

fn format_varbind(variable: &Variable, mib_resolver: &MibResolver) -> (r: serde_json::Value)
    ensures
        json_tree(r) == Tree::Object(text_members(varbind_fields(variable@, mib_resolver@))),
{
    let formatted = format_varbind_value(&variable.val);
    let ghost basic = basic_fields(variable@);
    let mut varbind = json_new();
    json_insert(&mut varbind, "oid".to_owned(), variable.oid.text.clone());
    json_insert(&mut varbind, "type".to_owned(), formatted.value_type.to_owned());
    json_insert(&mut varbind, "value".to_owned(), formatted.value);
    if let Some(value_bytes_hex) = formatted.value_bytes_hex {
        json_insert(&mut varbind, "value_bytes_hex".to_owned(), value_bytes_hex);
    }
    assert(json_members(varbind) =~= text_members(basic));
    insert_json_oid_resolution(&mut varbind, "oid", variable.oid.text.as_str(), mib_resolver);
    proof {
        lemma_text_members_union(
            basic,
            known_oid_fields("oid"@, variable@.oid.text, mib_resolver@),
        );
    }
    if let BoundValue::Value(ObjectValue::Object(value_oid)) = &variable.val {
        insert_json_oid_resolution(
            &mut varbind,
            "value_oid",
            value_oid.text.as_str(),
            mib_resolver,
        );
        proof {
            lemma_text_members_union(
                with_known_oid(basic, "oid"@, variable@.oid.text, mib_resolver@),
                known_oid_fields("value_oid"@, value_oid.text@, mib_resolver@),
            );
        }
    }
    json_object(varbind)
}

/// Formats variable bindings.
pub fn format_varbinds(variables: &[Variable], mib_resolver: &MibResolver) -> (r: Vec<
    serde_json::Value,
>)
    ensures
        objects_view(r@) == text_objects(
            all_varbind_fields(variables_view(variables@), mib_resolver@),
        ),
{
    let mut varbinds: Vec<serde_json::Value> = Vec::new();
    let ghost all = text_objects(all_varbind_fields(variables_view(variables@), mib_resolver@));
    for index in 0..variables.len()
        invariant
            all == text_objects(all_varbind_fields(variables_view(variables@), mib_resolver@)),
            objects_view(varbinds@) == all.take(index as int),
    {
        let ghost before = objects_view(varbinds@);
        let varbind = format_varbind(&variables[index], mib_resolver);
        varbinds.push(varbind);
        assert(objects_view(varbinds@) =~= before.push(json_tree(varbind)));
        assert(all[index as int] == json_tree(varbind));
        assert(all.take(index + 1) =~= before.push(all[index as int]));
    }
    assert(all.take(variables@.len() as int) =~= all);
    varbinds
}

} // verus!
