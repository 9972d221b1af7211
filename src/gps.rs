use vstd::prelude::*;
use crate::reassembler::{byte_views, feed, Reassembler};
use crate::text::{utf8_text, decode_utf8};
use vstd::utf8::is_ascii_chars;
use nmea::sentences::FixType;

verus! {

/// The NMEA parser context of the nmea crate, carried through opaquely.
#[verifier::external_type_specification]
#[verifier::external_body]
pub struct ExNmea(nmea::Nmea);

/// Quality of a position fix, as the receiver reports it.
#[derive(Clone, Copy, Debug, PartialEq, Eq, Structural)]
pub enum FixKind {
    Invalid,
    Gps,
    DGps,
    Pps,
    Rtk,
    FloatRtk,
    Estimated,
    Manual,
    Simulation,
}

impl FixKind {
    /// The name under which a fix of this kind is stored.
    pub fn name(&self) -> (r: &'static str)
        ensures
            *self == FixKind::Invalid ==> r@ == "Invalid"@,
            *self == FixKind::Gps ==> r@ == "Gps"@,
            *self == FixKind::DGps ==> r@ == "DGps"@,
            *self == FixKind::Pps ==> r@ == "Pps"@,
            *self == FixKind::Rtk ==> r@ == "Rtk"@,
            *self == FixKind::FloatRtk ==> r@ == "FloatRtk"@,
            *self == FixKind::Estimated ==> r@ == "Estimated"@,
            *self == FixKind::Manual ==> r@ == "Manual"@,
            *self == FixKind::Simulation ==> r@ == "Simulation"@,
    {
        match self {
            FixKind::Invalid => "Invalid",
            FixKind::Gps => "Gps",
            FixKind::DGps => "DGps",
            FixKind::Pps => "Pps",
            FixKind::Rtk => "Rtk",
            FixKind::FloatRtk => "FloatRtk",
            FixKind::Estimated => "Estimated",
            FixKind::Manual => "Manual",
            FixKind::Simulation => "Simulation",
        }
    }
}

/// Relies on nmea::Nmea::default: a parser context with no field filled in yet.
#[verifier::external_body]
fn empty_fix_state() -> nmea::Nmea {
    nmea::Nmea::default()
}

/// A GSV sentence whose sentence-number field reads 15 or more: after such a
/// sentence, the nmea parser context overflows its satellite table and panics on
/// a later GSV sentence of the same talker. Read over the bytes of an ASCII text:
/// `$`, a two-character talker, `GSV,`, the sentence count, `,`, the sentence number.
pub open spec fn gsv_overflows(s: Seq<u8>) -> bool {
    s.len() >= 7 && s[3] == 0x47 && s[4] == 0x53 && s[5] == 0x56 && s[6] == 0x2c && ({
        let d = s.skip(7);
        let n1 = digit_run(d);
        0 < n1 < d.len() && d[n1] == 0x2c && ({
            let e = d.skip(n1 + 1);
            let n2 = digit_run(e);
            n2 > 0 && digits_value(e.take(n2)) >= 15
        })
    })
}

pub open spec fn is_digit(b: u8) -> bool {
    0x30 <= b && b <= 0x39
}

/// Number of decimal digits that `s` starts with.
pub open spec fn digit_run(s: Seq<u8>) -> int
    decreases s.len(),
{
    if s.len() > 0 && is_digit(s[0]) {
        1 + digit_run(s.drop_first())
    } else {
        0
    }
}

/// The value of a run of decimal digits.
pub open spec fn digits_value(s: Seq<u8>) -> int
    decreases s.len(),
{
    if s.len() == 0 {
        0
    } else {
        digits_value(s.drop_last()) * 10 + (s.last() - 0x30)
    }
}

/// Number of leading `<digits>,` fields of `t`, each of any number of digits, none included.
pub open spec fn prn_fields(t: Seq<u8>) -> nat
    decreases t.len(),
{
    let n = digit_run(t);
    if 0 <= n < t.len() && t[n] == 0x2c {
        1 + prn_fields(t.skip(n + 1))
    } else {
        0
    }
}

/// Number of commas that `t` starts with.
pub open spec fn comma_run(t: Seq<u8>) -> int
    decreases t.len(),
{
    if t.len() > 0 && t[0] == 0x2c {
        1 + comma_run(t.drop_first())
    } else {
        0
    }
}

/// A GSA sentence whose satellite fields, after the two mode fields, start with 13 or
/// more `<digits>,` fields while not being all empty: the nmea parser keeps room for
/// 12 satellites and panics on the 13th. A field too large for a `u32` is counted too,
/// though the parser would stop at it; such a sentence is refused all the same.
pub open spec fn gsa_overflows(s: Seq<u8>) -> bool {
    s.len() >= 11 && s[3] == 0x47 && s[4] == 0x53 && s[5] == 0x41 && s[6] == 0x2c && s[8] == 0x2c
        && s[10] == 0x2c && ({
        let t = s.skip(11);
        let c = comma_run(t);
        !(c > 0 && (c == t.len() || t[c] == 0x2a)) && prn_fields(t) >= 13
    })
}

/// The bytes of a text read as ASCII.
pub open spec fn ascii_bytes(t: Seq<char>) -> Seq<u8> {
    t.map_values(|c: char| c as u8)
}

/// The type of sentence, as its three letters, that the nmea parser accepts `text`
/// as, or `None` where it rejects it.
pub uninterp spec fn nmea_sentence_type(text: Seq<char>) -> Option<Seq<u8>>;

/// `GLL`, the geographic position sentence.
pub open spec fn gll_tag() -> Seq<u8> {
    seq![0x47u8, 0x4c, 0x4c]
}

/// A sentence that the nmea parser cannot take without panicking.
pub open spec fn unsafe_for_parser(s: Seq<u8>) -> bool {
    gsv_overflows(s) || gsa_overflows(s)
}

/// Relies on nmea::Nmea::parse, which checks and parses one sentence and merges its
/// fields into the context, on SentenceType::as_str, and on the field
/// nmea::Nmea::fix_type read afterwards. Whether a sentence is accepted and as
/// which type depends on the text alone (`parse_str`; merging only fails on a
/// sentence number that does not fit a `usize`). An accepted GLL sentence always
/// sets the fix type (`merge_gll_data`). The parser panics on GSV and GSA sentences
/// that overflow its fixed-size tables, so those are never handed to it.
#[verifier::external_body]
fn parse_sentence(state: &mut nmea::Nmea, text: &str) -> (r: (Option<Vec<u8>>, Option<FixKind>))
    requires
        !unsafe_for_parser(ascii_bytes(text@)),
    ensures
        r.0 is Some <==> nmea_sentence_type(text@) is Some,
        r.0 matches Some(t) ==> t@ == nmea_sentence_type(text@)->Some_0,
        r.0 matches Some(t) && t@ == gll_tag() ==> r.1 is Some,
{
    let tag = state.parse(text).ok().map(|t| t.as_str().as_bytes().to_vec());
    let fix = state.fix_type.map(|t| match t {
        FixType::Invalid => FixKind::Invalid,
        FixType::Gps => FixKind::Gps,
        FixType::DGps => FixKind::DGps,
        FixType::Pps => FixKind::Pps,
        FixType::Rtk => FixKind::Rtk,
        FixType::FloatRtk => FixKind::FloatRtk,
        FixType::Estimated => FixKind::Estimated,
        FixType::Manual => FixKind::Manual,
        FixType::Simulation => FixKind::Simulation,
    });
    (tag, fix)
}

proof fn lemma_digit_run_is(s: Seq<u8>, k: int)
    requires
        0 <= k <= s.len(),
        forall|j: int| 0 <= j < k ==> is_digit(#[trigger] s[j]),
        k < s.len() ==> !is_digit(s[k]),
    ensures
        digit_run(s) == k,
    decreases s.len(),
{
    if k > 0 {
        assert(is_digit(s[0]));
        assert forall|j: int| 0 <= j < k - 1 implies is_digit(#[trigger] s.drop_first()[j]) by {
            assert(s.drop_first()[j] == s[j + 1]);
        }
        lemma_digit_run_is(s.drop_first(), k - 1);
    }
}

proof fn lemma_digit_run_prefix(s: Seq<u8>)
    ensures
        0 <= digit_run(s) <= s.len(),
        forall|j: int| 0 <= j < digit_run(s) ==> is_digit(#[trigger] s[j]),
    decreases s.len(),
{
    if s.len() > 0 && is_digit(s[0]) {
        lemma_digit_run_prefix(s.drop_first());
        assert forall|j: int| 0 <= j < digit_run(s) implies is_digit(#[trigger] s[j]) by {
            if j > 0 {
                assert(s[j] == s.drop_first()[j - 1]);
            }
        }
    }
}

/// End of the run of digits in `v` that starts at `from`.
fn digits_end(v: &Vec<u8>, from: usize) -> (k: usize)
    requires
        from <= v.len(),
    ensures
        from <= k <= v.len(),
        digit_run(v@.skip(from as int)) == k - from,
{
    let mut k: usize = from;
    while k < v.len() && 0x30 <= v[k] && v[k] <= 0x39
        invariant
            from <= k <= v.len(),
            forall|j: int| from <= j < k ==> is_digit(#[trigger] v@[j]),
        decreases v.len() - k,
    {
        k = k + 1;
    }
    proof {
        let t = v@.skip(from as int);
        assert forall|j: int| 0 <= j < k - from implies is_digit(#[trigger] t[j]) by {
            assert(t[j] == v@[j + from]);
        }
        if k < v.len() {
            assert(t[k - from] == v@[k as int]);
        }
        lemma_digit_run_is(t, k - from);
    }
    k
}

/// Whether the digits `v[lo..hi]` read 15 or more.
fn at_least_fifteen(v: &Vec<u8>, lo: usize, hi: usize) -> (r: bool)
    requires
        lo <= hi <= v.len(),
        forall|j: int| lo <= j < hi ==> is_digit(#[trigger] v@[j]),
    ensures
        r == (digits_value(v@.subrange(lo as int, hi as int)) >= 15),
{
    let mut acc: u32 = 0;
    let mut k: usize = lo;
    while k < hi
        invariant
            lo <= k <= hi <= v.len(),
            forall|j: int| lo <= j < hi ==> is_digit(#[trigger] v@[j]),
            acc <= 15,
            acc as int == if digits_value(v@.subrange(lo as int, k as int)) >= 15 {
                15
            } else {
                digits_value(v@.subrange(lo as int, k as int))
            },
        decreases hi - k,
    {
        let next = acc * 10 + v[k] as u32;
        proof {
            assert(v@.subrange(lo as int, k + 1).drop_last() =~= v@.subrange(lo as int, k as int));
            assert(v@.subrange(lo as int, k + 1).last() == v@[k as int]);
            assert(is_digit(v@[k as int]));
        }
        acc = if next >= 48 + 15 { 15 } else if next < 48 { 0 } else { next - 48 };
        k = k + 1;
    }
    acc >= 15
}

proof fn lemma_comma_run_is(t: Seq<u8>, k: int)
    requires
        0 <= k <= t.len(),
        forall|j: int| 0 <= j < k ==> #[trigger] t[j] == 0x2c,
        k < t.len() ==> t[k] != 0x2c,
    ensures
        comma_run(t) == k,
    decreases t.len(),
{
    if k > 0 {
        assert forall|j: int| 0 <= j < k - 1 implies #[trigger] t.drop_first()[j] == 0x2c by {
            assert(t.drop_first()[j] == t[j + 1]);
        }
        lemma_comma_run_is(t.drop_first(), k - 1);
    }
}

/// Whether `v`, the bytes of an ASCII sentence, is a GSA sentence that would
/// overflow the parser's satellite list.
fn gsa_overflow_check(v: &Vec<u8>) -> (r: bool)
    ensures
        r == gsa_overflows(v@),
{
    if !(v.len() >= 11 && v[3] == 0x47 && v[4] == 0x53 && v[5] == 0x41 && v[6] == 0x2c && v[8]
        == 0x2c && v[10] == 0x2c) {
        return false;
    }
    let ghost t = v@.skip(11);
    let mut c: usize = 11;
    while c < v.len() && v[c] == 0x2c
        invariant
            11 <= c <= v.len(),
            forall|j: int| 11 <= j < c ==> #[trigger] v@[j] == 0x2c,
        decreases v.len() - c,
    {
        c = c + 1;
    }
    proof {
        assert forall|j: int| 0 <= j < c - 11 implies #[trigger] t[j] == 0x2c by {
            assert(t[j] == v@[j + 11]);
        }
        if c < v.len() {
            assert(t[c - 11] == v@[c as int]);
        }
        lemma_comma_run_is(t, c - 11);
    }
    if c > 11 && (c == v.len() || v[c] == 0x2a) {
        return false;
    }
    let mut p: usize = 11;
    let mut count: u32 = 0;
    proof {
        assert(v@.skip(11) =~= t);
        assert(gsa_overflows(v@) == (prn_fields(t) >= 13));
    }
    while count < 13
        invariant
            gsa_overflows(v@) == (prn_fields(t) >= 13),
            11 <= p <= v.len(),
            count <= 13,
            prn_fields(t) == count + prn_fields(v@.skip(p as int)),
        decreases 13 - count,
    {
        let ghost u = v@.skip(p as int);
        let n = digits_end(v, p);
        if !(n < v.len() && v[n] == 0x2c) {
            proof {
                if n < v.len() {
                    assert(u[n - p] == v@[n as int]);
                }
                assert(digit_run(u) == n - p);
                assert(prn_fields(u) == 0);
                assert(prn_fields(t) < 13);
            }
            return false;
        }
        proof {
            assert(u[n - p] == v@[n as int]);
            assert(u.skip(n - p + 1) =~= v@.skip(n + 1));
        }
        p = n + 1;
        count = count + 1;
    }
    true
}

/// Whether `v`, the bytes of an ASCII sentence, is a GSV sentence with a sentence
/// number of 15 or more.
fn gsv_overflow_check(v: &Vec<u8>) -> (r: bool)
    ensures
        r == gsv_overflows(v@),
{
    if !(v.len() >= 7 && v[3] == 0x47 && v[4] == 0x53 && v[5] == 0x56 && v[6] == 0x2c) {
        return false;
    }
    let n1 = digits_end(v, 7);
    if !(n1 > 7 && n1 < v.len() && v[n1] == 0x2c) {
        proof {
            if n1 > 7 && n1 < v.len() {
                assert(v@.skip(7)[n1 - 7] == v@[n1 as int]);
            }
        }
        return false;
    }
    let n2 = digits_end(v, n1 + 1);
    proof {
        let d = v@.skip(7);
        assert(d[n1 - 7] == v@[n1 as int]);
        assert(d.skip(n1 - 7 + 1) =~= v@.skip(n1 + 1));
        assert(v@.skip(n1 + 1).take(n2 - (n1 + 1)) =~= v@.subrange(n1 + 1, n2 as int));
    }
    if n2 == n1 + 1 {
        return false;
    }
    proof {
        let e = v@.skip(n1 + 1);
        lemma_digit_run_prefix(e);
        assert forall|j: int| n1 + 1 <= j < n2 implies is_digit(#[trigger] v@[j]) by {
            assert(e[j - (n1 + 1)] == v@[j]);
        }
    }
    at_least_fifteen(v, n1 + 1, n2)
}

/// Relies on nmea::Nmea's Clone: a copy of the fields merged so far.
#[verifier::external_body]
fn snapshot(state: &nmea::Nmea) -> nmea::Nmea {
    state.clone()
}

/// What one complete sentence amounts to.
#[derive(Clone, Copy, Debug, PartialEq, Eq, Structural)]
pub enum Verdict {
    /// The parser rejected it (syntax or checksum); nothing was merged.
    Rejected,
    /// Its fields were merged; it does not close a fix cycle.
    Absorbed,
    /// It closes a fix cycle whose fix quality is known: a row is due.
    Flush(FixKind),
    /// It closes a fix cycle, but no fix quality has been seen.
    FixTypeMissing,
}

/// The verdict on a sentence whose type came back as `tag` (`None`: rejected), when
/// `terminal` is the type that closes a fix cycle and `fix` the fix quality known.
pub fn sentence_verdict(tag: &Option<Vec<u8>>, terminal: &Vec<u8>, fix: Option<FixKind>) -> (r:
    Verdict)
    ensures
        tag is None ==> r == Verdict::Rejected,
        tag matches Some(t) && t@ != terminal@ ==> r == Verdict::Absorbed,
        tag matches Some(t) && t@ == terminal@ && fix is None ==> r == Verdict::FixTypeMissing,
        tag matches Some(t) && t@ == terminal@ && fix is Some ==> r == Verdict::Flush(
            fix->Some_0,
        ),
{
    match tag {
        None => Verdict::Rejected,
        Some(t) => {
            if !same_bytes(t, terminal) {
                Verdict::Absorbed
            } else {
                match fix {
                    None => Verdict::FixTypeMissing,
                    Some(k) => Verdict::Flush(k),
                }
            }
        },
    }
}

fn same_bytes(a: &Vec<u8>, b: &Vec<u8>) -> (r: bool)
    ensures
        r == (a@ == b@),
{
    if a.len() != b.len() {
        return false;
    }
    let mut i: usize = 0;
    while i < a.len()
        invariant
            i <= a.len() == b.len(),
            forall|j: int| 0 <= j < i ==> a@[j] == b@[j],
        decreases a.len() - i,
    {
        if a[i] != b[i] {
            return false;
        }
        i = i + 1;
    }
    proof {
        assert(a@ =~= b@);
    }
    true
}

/// A fix cycle's result: its fix quality and the fields merged by then.
pub struct GpsFix {
    pub kind: FixKind,
    pub fields: nmea::Nmea,
}

/// What became of one complete sentence.
pub enum GpsEvent {
    /// The sentence is not valid UTF-8 and was skipped.
    NotText,
    /// The parser rejected the sentence.
    Rejected,
    /// The sentence would overflow the parser's tables and was not handed to it.
    Refused,
    /// The sentence was merged and closes no cycle.
    Absorbed,
    /// The sentence closed a cycle with no fix quality known.
    FixTypeMissing,
    /// The sentence closed a cycle: a row is due.
    Fix(GpsFix),
}

/// Decodes NMEA-0183 sentences streamed in fragments, emitting one fix per cycle.
pub struct GpsDecoder {
    sentences: Reassembler,
    fields: nmea::Nmea,
    terminal: Vec<u8>,
}

impl GpsDecoder {
    /// The bytes buffered towards the next sentence.
    pub closed spec fn pending(&self) -> Seq<u8> {
        self.sentences@
    }

    /// The sentence type that closes a fix cycle.
    pub closed spec fn terminal(&self) -> Seq<u8> {
        self.terminal@
    }

    /// A decoder whose cycles close on sentences of type `terminal`.
    pub fn with_terminal(terminal: Vec<u8>) -> (d: GpsDecoder)
        ensures
            d.pending() == Seq::<u8>::empty(),
            d.terminal() == terminal@,
    {
        GpsDecoder { sentences: Reassembler::new(), fields: empty_fix_state(), terminal }
    }

    /// A decoder whose cycles close on the geographic position sentence (`GLL`).
    pub fn new() -> (d: GpsDecoder)
        ensures
            d.pending() == Seq::<u8>::empty(),
            d.terminal() == seq![0x47u8, 0x4c, 0x4c],
    {
        let gll = vec![0x47u8, 0x4c, 0x4c];
        proof {
            assert(gll@ =~= seq![0x47u8, 0x4c, 0x4c]);
        }
        Self::with_terminal(gll)
    }

    /// Feeds `payload` to the reassembler and hands each complete sentence, in order,
    /// to the parser: one event per sentence.
    pub fn decode(&mut self, payload: &[u8]) -> (events: Vec<GpsEvent>)
        ensures
            final(self).pending() == feed(old(self).pending(), payload@).1,
            final(self).terminal() == old(self).terminal(),
            events.len() == feed(old(self).pending(), payload@).0.len(),
            forall|i: int|
                0 <= i < events.len() ==> expected_event(
                    #[trigger] feed(old(self).pending(), payload@).0[i],
                    old(self).terminal(),
                    events[i],
                ),
    {
        let lines = self.sentences.push(payload);
        let ghost views = byte_views(lines@);
        let mut events: Vec<GpsEvent> = Vec::new();
        let mut i: usize = 0;
        while i < lines.len()
            invariant
                i <= lines.len(),
                events.len() == i,
                views == byte_views(lines@),
                views.len() == lines.len(),
                self.terminal@ == old(self).terminal@,
                self.sentences@ == feed(old(self).sentences@, payload@).1,
                views == feed(old(self).sentences@, payload@).0,
                forall|j: int| 0 <= j < i ==> expected_event(#[trigger] views[j], self.terminal@, events[j]),
            decreases lines.len() - i,
        {
            proof {
                assert(views[i as int] == lines@[i as int]@);
            }
            let event = match decode_utf8(lines[i].as_slice()) {
                None => GpsEvent::NotText,
                Some(text) => self.handle_text(&text),
            };
            events.push(event);
            i = i + 1;
        }
        events
    }

    /// Hands one sentence of text to the parser, unless the parser would refuse it
    /// for not being ASCII or could not take it without failing.
    fn handle_text(&mut self, text: &String) -> (e: GpsEvent)
        ensures
            final(self).sentences@ == old(self).sentences@,
            final(self).terminal@ == old(self).terminal@,
            text_event(text@, old(self).terminal@, e),
    {
        if !text.is_ascii() {
            return GpsEvent::Rejected;
        }
        let s: &str = text.as_str();
        let bytes = s.as_bytes_vec();
        proof {
            vstd::string::is_ascii_spec_bytes(s);
            assert(bytes@ =~= ascii_bytes(text@));
        }
        if gsv_overflow_check(&bytes) || gsa_overflow_check(&bytes) {
            return GpsEvent::Refused;
        }
        let (tag, fix) = parse_sentence(&mut self.fields, s);
        match sentence_verdict(&tag, &self.terminal, fix) {
            Verdict::Rejected => GpsEvent::Rejected,
            Verdict::Absorbed => GpsEvent::Absorbed,
            Verdict::FixTypeMissing => GpsEvent::FixTypeMissing,
            Verdict::Flush(kind) => GpsEvent::Fix(GpsFix { kind, fields: snapshot(&self.fields) }),
        }
    }
}

/// What becomes of a sentence of text: rejected where it is not ASCII or the parser
/// refuses it; refused where it would overflow the parser's tables; else absorbed,
/// or closing a cycle where its type is the terminal one (with a fix for GLL).
pub open spec fn text_event(t: Seq<char>, terminal: Seq<u8>, e: GpsEvent) -> bool {
    if !is_ascii_chars(t) {
        e is Rejected
    } else if unsafe_for_parser(ascii_bytes(t)) {
        e is Refused
    } else {
        match nmea_sentence_type(t) {
            None => e is Rejected,
            Some(tag) => if tag != terminal {
                e is Absorbed
            } else if tag == gll_tag() {
                e is Fix
            } else {
                e is FixTypeMissing || e is Fix
            },
        }
    }
}

/// What becomes of one complete sentence `line`.
pub open spec fn expected_event(line: Seq<u8>, terminal: Seq<u8>, e: GpsEvent) -> bool {
    match utf8_text(line) {
        None => e is NotText,
        Some(t) => text_event(t, terminal, e),
    }
}

} // verus!
