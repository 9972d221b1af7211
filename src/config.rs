use vstd::prelude::*;
use crate::reassembler::{first_index, find_byte, copy_range, lemma_first_index_is};
use crate::text::{utf8_text, decode_utf8};

verus! {

/// Separator between the fields of a configuration text (`,`).
pub const FIELD_SEPARATOR: u8 = 0x2c;

/// The decoder kinds that a sensor can register as.
#[derive(Clone, Copy, Debug, PartialEq, Eq, Structural)]
pub enum SensorKind {
    Gps,
    Imu,
    Thermal,
}

/// `GPS_GNSS7`
pub open spec fn gps_type_name() -> Seq<u8> {
    seq![0x47u8, 0x50, 0x53, 0x5f, 0x47, 0x4e, 0x53, 0x53, 0x37]
}

/// `ACC_MPU9250`
pub open spec fn imu_type_name() -> Seq<u8> {
    seq![0x41u8, 0x43, 0x43, 0x5f, 0x4d, 0x50, 0x55, 0x39, 0x32, 0x35, 0x30]
}

/// `THERMAL_PROBE`
pub open spec fn thermal_type_name() -> Seq<u8> {
    seq![0x54u8, 0x48, 0x45, 0x52, 0x4d, 0x41, 0x4c, 0x5f, 0x50, 0x52, 0x4f, 0x42, 0x45]
}

/// `ID:`
pub open spec fn id_key() -> Seq<u8> {
    seq![0x49u8, 0x44, 0x3a]
}

/// `TYPE:`
pub open spec fn type_key() -> Seq<u8> {
    seq![0x54u8, 0x59, 0x50, 0x45, 0x3a]
}

/// The decoder kind that a type name selects; names are matched case-sensitively.
pub open spec fn kind_named(name: Seq<u8>) -> Option<SensorKind> {
    if name == gps_type_name() {
        Some(SensorKind::Gps)
    } else if name == imu_type_name() {
        Some(SensorKind::Imu)
    } else if name == thermal_type_name() {
        Some(SensorKind::Thermal)
    } else {
        None
    }
}

/// ASCII white space: space, tab, line feed, vertical tab, form feed, carriage return.
pub open spec fn is_space(b: u8) -> bool {
    b == 0x20 || (0x09 <= b && b <= 0x0d)
}

/// The UTF-8 encoding of a three-byte Unicode White_Space character: U+1680,
/// U+2000 to U+200A, U+2028, U+2029, U+202F, U+205F, U+3000.
pub open spec fn is_wide_space(a: u8, b: u8, c: u8) -> bool {
    (a == 0xe1 && b == 0x9a && c == 0x80) || (a == 0xe2 && b == 0x80 && ((0x80 <= c && c <= 0x8a)
        || c == 0xa8 || c == 0xa9 || c == 0xaf)) || (a == 0xe2 && b == 0x81 && c == 0x9f) || (a
        == 0xe3 && b == 0x80 && c == 0x80)
}

/// The UTF-8 encoding of a two-byte Unicode White_Space character: U+0085, U+00A0.
pub open spec fn is_narrow_space(a: u8, b: u8) -> bool {
    a == 0xc2 && (b == 0x85 || b == 0xa0)
}

/// Length in bytes of the Unicode White_Space character that `s` starts with, or 0.
pub open spec fn space_width_front(s: Seq<u8>) -> int {
    if s.len() >= 1 && is_space(s[0]) {
        1
    } else if s.len() >= 2 && is_narrow_space(s[0], s[1]) {
        2
    } else if s.len() >= 3 && is_wide_space(s[0], s[1], s[2]) {
        3
    } else {
        0
    }
}

/// Length in bytes of the Unicode White_Space character that `s` ends with, or 0.
pub open spec fn space_width_back(s: Seq<u8>) -> int {
    let n = s.len() as int;
    if n >= 1 && is_space(s[n - 1]) {
        1
    } else if n >= 2 && is_narrow_space(s[n - 2], s[n - 1]) {
        2
    } else if n >= 3 && is_wide_space(s[n - 3], s[n - 2], s[n - 1]) {
        3
    } else {
        0
    }
}

/// `s` without its leading Unicode white space, read as UTF-8.
pub open spec fn trim_start(s: Seq<u8>) -> Seq<u8>
    decreases s.len(),
{
    let w = space_width_front(s);
    if w > 0 {
        trim_start(s.skip(w))
    } else {
        s
    }
}

/// `s` without its trailing Unicode white space, read as UTF-8.
pub open spec fn trim_end(s: Seq<u8>) -> Seq<u8>
    decreases s.len(),
{
    let w = space_width_back(s);
    if w > 0 {
        trim_end(s.take(s.len() - w))
    } else {
        s
    }
}

pub open spec fn trim(s: Seq<u8>) -> Seq<u8> {
    trim_end(trim_start(s))
}

/// `s` with every leading repetition of `p` removed.
pub open spec fn strip_all(s: Seq<u8>, p: Seq<u8>) -> Seq<u8>
    decreases s.len(),
{
    if 0 < p.len() <= s.len() && s.take(p.len() as int) == p {
        strip_all(s.skip(p.len() as int), p)
    } else {
        s
    }
}

/// The text holds a separator, so that it has a second field.
pub open spec fn has_two_fields(s: Seq<u8>) -> bool {
    first_index(s, FIELD_SEPARATOR) < s.len()
}

/// The device id: the first field, its `ID:` keys and surrounding white space removed.
pub open spec fn id_field(s: Seq<u8>) -> Seq<u8> {
    trim(strip_all(s.take(first_index(s, FIELD_SEPARATOR)), id_key()))
}

/// The sensor type: the second field, its `TYPE:` keys and surrounding white space removed.
pub open spec fn type_field(s: Seq<u8>) -> Seq<u8> {
    let t = s.skip(first_index(s, FIELD_SEPARATOR) + 1);
    trim(strip_all(t.take(first_index(t, FIELD_SEPARATOR)), type_key()))
}

/// A parsed configuration text `ID:<device id>,TYPE:<sensor type>`.
pub struct SensorConfig {
    pub device_id: Vec<u8>,
    pub kind: SensorKind,
}

pub enum ConfigError {
    /// The text is not valid UTF-8.
    NotUtf8,
    /// The text has no second field.
    MissingType,
    /// The sensor type names no known decoder.
    UnknownType(Vec<u8>),
}

/// What parsing the fields of `s` gives.
pub open spec fn fields_outcome(s: Seq<u8>, r: Result<SensorConfig, ConfigError>) -> bool {
    match r {
        Err(ConfigError::MissingType) => !has_two_fields(s),
        Err(ConfigError::UnknownType(t)) => has_two_fields(s) && kind_named(type_field(s)) is None
            && t@ == type_field(s),
        Ok(c) => has_two_fields(s) && kind_named(type_field(s)) == Some(c.kind) && c.device_id@
            == id_field(s),
        Err(ConfigError::NotUtf8) => false,
    }
}

fn bytes_equal(a: &Vec<u8>, b: &Vec<u8>) -> (r: bool)
    ensures
        r == (a@ == b@),
{
    if a.len() != b.len() {
        return false;
    }
    let mut i: usize = 0;
    while i < a.len()
        invariant
            i <= a.len() == b.len(),
            a@.take(i as int) == b@.take(i as int),
        decreases a.len() - i,
    {
        if a[i] != b[i] {
            return false;
        }
        i = i + 1;
        proof {
            assert(a@.take(i as int) =~= a@.take(i - 1).push(a@[i - 1]));
            assert(b@.take(i as int) =~= b@.take(i - 1).push(b@[i - 1]));
        }
    }
    proof {
        assert(a@ =~= a@.take(i as int));
        assert(b@ =~= b@.take(i as int));
    }
    true
}

fn starts_with(v: &Vec<u8>, p: &Vec<u8>) -> (r: bool)
    ensures
        r == (p.len() <= v.len() && v@.take(p.len() as int) == p@),
{
    if p.len() > v.len() {
        return false;
    }
    let head = copy_range(v, 0, p.len());
    proof {
        assert(head@ =~= v@.take(p.len() as int));
    }
    bytes_equal(&head, p)
}

fn strip_prefix_all(v: Vec<u8>, p: &Vec<u8>) -> (r: Vec<u8>)
    ensures
        r@ == strip_all(v@, p@),
{
    let mut cur = v;
    if p.len() == 0 {
        return cur;
    }
    while starts_with(&cur, p)
        invariant
            p.len() > 0,
            strip_all(cur@, p@) == strip_all(v@, p@),
        decreases cur.len(),
    {
        let next = copy_range(&cur, p.len(), cur.len());
        proof {
            assert(next@ =~= cur@.skip(p.len() as int));
        }
        cur = next;
    }
    cur
}

fn is_space_byte(b: u8) -> (r: bool)
    ensures
        r == is_space(b),
{
    b == 0x20 || (0x09 <= b && b <= 0x0d)
}

fn is_wide_space_bytes(a: u8, b: u8, c: u8) -> (r: bool)
    ensures
        r == is_wide_space(a, b, c),
{
    (a == 0xe1 && b == 0x9a && c == 0x80) || (a == 0xe2 && b == 0x80 && ((0x80 <= c && c <= 0x8a)
        || c == 0xa8 || c == 0xa9 || c == 0xaf)) || (a == 0xe2 && b == 0x81 && c == 0x9f) || (a
        == 0xe3 && b == 0x80 && c == 0x80)
}

fn width_front(v: &Vec<u8>) -> (w: usize)
    ensures
        w == space_width_front(v@),
{
    let n = v.len();
    if n >= 1 && is_space_byte(v[0]) {
        1
    } else if n >= 2 && v[0] == 0xc2 && (v[1] == 0x85 || v[1] == 0xa0) {
        2
    } else if n >= 3 && is_wide_space_bytes(v[0], v[1], v[2]) {
        3
    } else {
        0
    }
}

fn width_back(v: &Vec<u8>) -> (w: usize)
    ensures
        w == space_width_back(v@),
        w <= v.len(),
{
    let n = v.len();
    if n >= 1 && is_space_byte(v[n - 1]) {
        1
    } else if n >= 2 && v[n - 2] == 0xc2 && (v[n - 1] == 0x85 || v[n - 1] == 0xa0) {
        2
    } else if n >= 3 && is_wide_space_bytes(v[n - 3], v[n - 2], v[n - 1]) {
        3
    } else {
        0
    }
}

fn trim_bytes(v: Vec<u8>) -> (r: Vec<u8>)
    ensures
        r@ == trim(v@),
{
    let mut cur = v;
    let mut w = width_front(&cur);
    while w > 0
        invariant
            w == space_width_front(cur@),
            trim_start(cur@) == trim_start(v@),
        decreases cur.len(),
    {
        let next = copy_range(&cur, w, cur.len());
        proof {
            assert(next@ =~= cur@.skip(w as int));
        }
        cur = next;
        w = width_front(&cur);
    }
    let ghost started = cur@;
    let mut w = width_back(&cur);
    while w > 0
        invariant
            w == space_width_back(cur@),
            w <= cur.len(),
            trim_end(cur@) == trim_end(started),
            started == trim_start(v@),
        decreases cur.len(),
    {
        let next = copy_range(&cur, 0, cur.len() - w);
        proof {
            assert(next@ =~= cur@.take(cur@.len() - w));
        }
        cur = next;
        w = width_back(&cur);
    }
    cur
}

fn gps_name() -> (r: Vec<u8>)
    ensures
        r@ == gps_type_name(),
{
    let r = vec![0x47u8, 0x50, 0x53, 0x5f, 0x47, 0x4e, 0x53, 0x53, 0x37];
    proof {
        assert(r@ =~= gps_type_name());
    }
    r
}

fn imu_name() -> (r: Vec<u8>)
    ensures
        r@ == imu_type_name(),
{
    let r = vec![0x41u8, 0x43, 0x43, 0x5f, 0x4d, 0x50, 0x55, 0x39, 0x32, 0x35, 0x30];
    proof {
        assert(r@ =~= imu_type_name());
    }
    r
}

fn thermal_name() -> (r: Vec<u8>)
    ensures
        r@ == thermal_type_name(),
{
    let r = vec![0x54u8, 0x48, 0x45, 0x52, 0x4d, 0x41, 0x4c, 0x5f, 0x50, 0x52, 0x4f, 0x42, 0x45];
    proof {
        assert(r@ =~= thermal_type_name());
    }
    r
}

impl SensorKind {
    /// The decoder kind that `name` selects, matched case-sensitively.
    pub fn from_type_name(name: &Vec<u8>) -> (r: Option<SensorKind>)
        ensures
            r == kind_named(name@),
    {
        if bytes_equal(name, &gps_name()) {
            Some(SensorKind::Gps)
        } else if bytes_equal(name, &imu_name()) {
            Some(SensorKind::Imu)
        } else if bytes_equal(name, &thermal_name()) {
            Some(SensorKind::Thermal)
        } else {
            None
        }
    }
}

/// Splits a configuration text `ID:<device id>,TYPE:<sensor type>` into its device
/// id and decoder kind. Fields past the second are ignored.
pub fn parse_config_fields(bytes: &Vec<u8>) -> (r: Result<SensorConfig, ConfigError>)
    ensures
        fields_outcome(bytes@, r),
{
    let ghost s = bytes@;
    let k = find_byte(bytes, 0, FIELD_SEPARATOR);
    proof {
        lemma_first_index_is(s, FIELD_SEPARATOR, k as int);
    }
    if k == bytes.len() {
        return Err(ConfigError::MissingType);
    }
    let first = copy_range(bytes, 0, k);
    let k2 = find_byte(bytes, k + 1, FIELD_SEPARATOR);
    let second = copy_range(bytes, k + 1, k2);
    proof {
        let t = s.skip(k + 1);
        assert forall|j: int| 0 <= j < k2 - (k + 1) implies t[j] != FIELD_SEPARATOR by {
            assert(t[j] == s[j + k + 1]);
        }
        if k2 < s.len() {
            assert(t[k2 - (k + 1)] == s[k2 as int]);
        }
        lemma_first_index_is(t, FIELD_SEPARATOR, k2 - (k + 1));
        assert(first@ =~= s.take(k as int));
        assert(second@ =~= t.take(k2 - (k + 1)));
    }
    let id_key_bytes = vec![0x49u8, 0x44, 0x3a];
    let type_key_bytes = vec![0x54u8, 0x59, 0x50, 0x45, 0x3a];
    proof {
        assert(id_key_bytes@ =~= id_key());
        assert(type_key_bytes@ =~= type_key());
    }
    let id = trim_bytes(strip_prefix_all(first, &id_key_bytes));
    let sensor_type = trim_bytes(strip_prefix_all(second, &type_key_bytes));
    match SensorKind::from_type_name(&sensor_type) {
        Some(kind) => Ok(SensorConfig { device_id: id, kind }),
        None => Err(ConfigError::UnknownType(sensor_type)),
    }
}

/// Parses a configuration text; bytes that are not valid UTF-8 are rejected.
pub fn parse_config(bytes: &Vec<u8>) -> (r: Result<SensorConfig, ConfigError>)
    ensures
        utf8_text(bytes@) is None ==> r matches Err(ConfigError::NotUtf8),
        utf8_text(bytes@) is Some ==> fields_outcome(bytes@, r),
{
    match decode_utf8(bytes.as_slice()) {
        None => Err(ConfigError::NotUtf8),
        Some(_) => parse_config_fields(bytes),
    }
}

} // verus!
