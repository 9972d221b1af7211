use vstd::prelude::*;
use crate::config::{
    has_two_fields, id_field, kind_named, parse_config, type_field, ConfigError, SensorKind,
};
use crate::gps::{expected_event, GpsDecoder, GpsEvent, GpsFix};
use crate::imu::{imu_step, ImuDecoder, ImuError, ImuRow};
use crate::reassembler::{copy_range, feed, find_byte, lacks, SENTENCE_END};
use crate::text::utf8_text;
use crate::thermal::{le_u32, ThermalDecoder, ThermalError, ThermalRow, THERMAL_FRAME_LEN};

verus! {

/// Identifier on which the controller answers sensors.
pub const CONFIG_SERVER: u32 = 0xfe;

/// Identifier on which a sensor asks to register.
pub const CONFIG_CLIENT: u32 = 0xff;

/// First identifier handed to a sensor.
pub const FIRST_SENSOR_ID: u8 = 5;

/// Byte broadcast on the server identifier at start, asking sensors to register.
pub const RESET_BYTE: u8 = 5;

/// One frame of bus traffic.
pub struct Frame {
    /// Extended (29-bit) addressing; such frames are not routed.
    pub extended: bool,
    pub id: u32,
    pub data: Vec<u8>,
}

/// A decoder bound to a sensor identifier.
pub enum Decoder {
    Gps(GpsDecoder),
    Imu(ImuDecoder),
    Thermal(ThermalDecoder),
}

impl Decoder {
    pub open spec fn kind(&self) -> SensorKind {
        match self {
            Decoder::Gps(_) => SensorKind::Gps,
            Decoder::Imu(_) => SensorKind::Imu,
            Decoder::Thermal(_) => SensorKind::Thermal,
        }
    }

    /// A fresh decoder of the given kind.
    pub fn for_kind(kind: SensorKind) -> (d: Decoder)
        ensures
            d.kind() == kind,
    {
        match kind {
            SensorKind::Gps => Decoder::Gps(GpsDecoder::new()),
            SensorKind::Imu => Decoder::Imu(ImuDecoder::new()),
            SensorKind::Thermal => Decoder::Thermal(ThermalDecoder::new()),
        }
    }
}

/// A structured row due for the store.
pub enum Row {
    Gps(GpsFix),
    Imu(ImuRow),
    Thermal(ThermalRow),
}

/// Something worth reporting on the diagnostic output.
pub enum Notice {
    /// A frame came on an identifier that no sensor holds.
    Unregistered(u32),
    /// A sensor was bound to an identifier.
    Registered { sensor_id: u8, kind: SensorKind, device_id: Vec<u8> },
    /// A registration was abandoned: its configuration text was refused.
    ConfigRejected(ConfigError),
    /// A registration was abandoned: the store could not create the sensor's table.
    SchemaFailed(SensorKind),
    /// A GPS sentence was not valid UTF-8.
    GpsNotText,
    /// A GPS sentence failed to parse.
    GpsRejected,
    /// A GPS sentence was not handed to the parser: it would overflow its tables.
    GpsRefused,
    /// A GPS fix cycle closed with no fix quality known.
    GpsFixTypeMissing,
    Imu(ImuError),
    Thermal(ThermalError),
}

/// What the surrounding loop is to do.
pub enum Action {
    /// Send a frame on a standard identifier.
    Send { id: u32, data: Vec<u8> },
    /// Create the table of a sensor kind if it is absent, then report with `on_schema`.
    EnsureSchema(SensorKind),
    Store(Row),
    Report(Notice),
    /// The identifier space is used up: the process cannot go on.
    Halt,
}

/// Where the registration protocol stands.
pub enum Phase {
    Idle,
    /// The handshake was answered; configuration bytes gathered so far.
    AwaitingConfig(Vec<u8>),
    /// The configuration was accepted; the store is creating the table.
    Binding(SensorKind, Vec<u8>),
}

/// The kind bound to `id`: the latest entry for it, if any.
pub open spec fn bound_kind(ids: Seq<u8>, kinds: Seq<SensorKind>, id: u8) -> Option<SensorKind>
    decreases ids.len(),
{
    if ids.len() == 0 || kinds.len() != ids.len() {
        None
    } else if ids.last() == id {
        Some(kinds.last())
    } else {
        bound_kind(ids.drop_last(), kinds.drop_last(), id)
    }
}

pub open spec fn kinds_of(ds: Seq<Decoder>) -> Seq<SensorKind> {
    ds.map_values(|d: Decoder| d.kind())
}

pub open spec fn has_end(s: Seq<u8>) -> bool {
    !lacks(s, SENTENCE_END)
}

/// The phase that a complete configuration text leads to, as a kind to bind, or
/// `None` where the registration is abandoned.
pub open spec fn accepted_kind(config: Seq<u8>) -> Option<SensorKind> {
    if utf8_text(config) is Some && has_two_fields(config) {
        kind_named(type_field(config))
    } else {
        None
    }
}

/// Routes bus frames to the registration protocol and to the bound decoders.
pub struct Dispatcher {
    next_id: u8,
    ids: Vec<u8>,
    decoders: Vec<Decoder>,
    phase: Phase,
}

impl Dispatcher {
    /// The identifier that the next registration hands out.
    pub closed spec fn next_id(&self) -> u8 {
        self.next_id
    }

    /// Bound identifiers, in the order of binding.
    pub closed spec fn ids(&self) -> Seq<u8> {
        self.ids@
    }

    /// The kinds of the decoders bound, in the order of binding.
    pub closed spec fn kinds(&self) -> Seq<SensorKind> {
        kinds_of(self.decoders@)
    }

    pub closed spec fn phase(&self) -> Phase {
        self.phase
    }

    /// The decoder bound to `id`, with its state, if any.
    pub closed spec fn decoder_at(&self, id: u8) -> Option<Decoder> {
        let k = bound_index(self.ids@, id);
        if 0 <= k < self.decoders@.len() {
            Some(self.decoders@[k])
        } else {
            None
        }
    }

    /// The kind bound to `id`, if any.
    pub open spec fn kind_at(&self, id: u8) -> Option<SensorKind> {
        bound_kind(self.ids(), self.kinds(), id)
    }

    /// Identifiers start at the first sensor identifier, stay below the server
    /// identifier, and each bound one lies below the next to hand out.
    pub closed spec fn wf(&self) -> bool {
        &&& self.ids@.len() == self.decoders@.len()
        &&& FIRST_SENSOR_ID <= self.next_id <= CONFIG_SERVER
        &&& forall|i: int| 0 <= i < self.ids@.len() ==> FIRST_SENSOR_ID <= #[trigger] self.ids@[i] < self.next_id
        &&& !(self.phase is Idle) ==> self.next_id < CONFIG_SERVER
    }

    /// Every bound identifier lies in `[FIRST_SENSOR_ID, next_id())`, the counter never
    /// passes the server identifier, and a registration under way has an identifier to hand out.
    pub open spec fn ids_bounded(&self) -> bool {
        &&& FIRST_SENSOR_ID <= self.next_id() <= CONFIG_SERVER
        &&& forall|i: int|
            0 <= i < self.ids().len() ==> FIRST_SENSOR_ID <= #[trigger] self.ids()[i] < self.next_id()
        &&& !(self.phase() is Idle) ==> self.next_id() < CONFIG_SERVER
    }

    proof fn lemma_unbound_next(&self)
        requires
            self.wf(),
        ensures
            self.kind_at(self.next_id()) is None,
    {
        lemma_bound_absent(self.ids@, self.kinds(), self.next_id);
    }

    /// A dispatcher with no sensor bound, handing out identifiers from `first` on.
    pub fn with_first_id(first: u8) -> (d: Dispatcher)
        requires
            FIRST_SENSOR_ID <= first <= CONFIG_SERVER,
        ensures
            d.wf(),
            d.ids_bounded(),
            d.next_id() == first,
            d.ids() == Seq::<u8>::empty(),
            d.kinds() == Seq::<SensorKind>::empty(),
            d.phase() is Idle,
    {
        let d = Dispatcher { next_id: first, ids: Vec::new(), decoders: Vec::new(), phase: Phase::Idle };
        proof {
            assert(kinds_of(d.decoders@) =~= Seq::<SensorKind>::empty());
        }
        d
    }

    /// A dispatcher with no sensor bound, handing out identifiers from the first sensor identifier on.
    pub fn new() -> (d: Dispatcher)
        ensures
            d.wf(),
            d.ids_bounded(),
            d.next_id() == FIRST_SENSOR_ID,
            d.ids() == Seq::<u8>::empty(),
            d.kinds() == Seq::<SensorKind>::empty(),
            d.phase() is Idle,
    {
        Self::with_first_id(FIRST_SENSOR_ID)
    }

    /// The broadcast that opens a session: the reset byte on the server identifier.
    pub fn start(&self) -> (a: Action)
        ensures
            a matches Action::Send { id, data } && id == CONFIG_SERVER && data@ == seq![RESET_BYTE],
    {
        Action::Send { id: CONFIG_SERVER, data: vec![RESET_BYTE] }
    }

    pub fn next_sensor_id(&self) -> (r: u8)
        ensures
            r == self.next_id(),
    {
        self.next_id
    }

    pub fn is_idle(&self) -> (r: bool)
        ensures
            r == self.phase() is Idle,
    {
        match self.phase {
            Phase::Idle => true,
            _ => false,
        }
    }

    /// Position of the latest entry for `id`, if any.
    fn position(&self, id: u8) -> (r: Option<usize>)
        requires
            self.wf(),
        ensures
            r is None ==> self.kind_at(id) is None,
            r matches Some(i) ==> i < self.ids@.len() && self.ids@[i as int] == id && self.kind_at(
                id,
            ) == Some(self.kinds()[i as int]),
            r matches Some(i) ==> bound_index(self.ids@, id) == i,
            r is None ==> bound_index(self.ids@, id) == -1,
    {
        let ghost ks = self.kinds();
        let mut i: usize = self.ids.len();
        proof {
            assert(self.ids@.take(i as int) =~= self.ids@);
            assert(ks.take(i as int) =~= ks);
        }
        while i > 0
            invariant
                i <= self.ids@.len() == ks.len(),
                ks == self.kinds(),
                self.ids@.len() == self.decoders@.len(),
                bound_kind(self.ids@, ks, id) == bound_kind(self.ids@.take(i as int), ks.take(i as int), id),
                forall|j: int| i <= j < self.ids@.len() ==> #[trigger] self.ids@[j] != id,
            decreases i,
        {
            let ghost ids_i = self.ids@.take(i as int);
            let ghost ks_i = ks.take(i as int);
            if self.ids[i - 1] == id {
                proof {
                    lemma_bound_index_is(self.ids@, id, i - 1);
                }
                return Some(i - 1);
            }
            proof {
                assert(ids_i.drop_last() =~= self.ids@.take(i - 1));
                assert(ks_i.drop_last() =~= ks.take(i - 1));
            }
            i = i - 1;
        }
        proof {
            lemma_bound_index_is(self.ids@, id, -1);
        }
        None
    }

    /// The kind bound to `id`, if any.
    pub fn sensor_kind(&self, id: u8) -> (r: Option<SensorKind>)
        requires
            self.wf(),
        ensures
            r == self.kind_at(id),
    {
        match self.position(id) {
            None => None,
            Some(i) => {
                proof {
                    assert(self.kinds()[i as int] == self.decoders@[i as int].kind());
                }
                Some(self.decoder_kind(i))
            },
        }
    }

    fn decoder_kind(&self, i: usize) -> (k: SensorKind)
        requires
            i < self.decoders@.len(),
        ensures
            k == self.decoders@[i as int].kind(),
    {
        match &self.decoders[i] {
            Decoder::Gps(_) => SensorKind::Gps,
            Decoder::Imu(_) => SensorKind::Imu,
            Decoder::Thermal(_) => SensorKind::Thermal,
        }
    }
}

/// The configuration bytes gathered once `data` is added in phase `p`.
pub open spec fn gathered(p: Phase, data: Seq<u8>) -> Seq<u8> {
    match p {
        Phase::AwaitingConfig(c) => c@ + data,
        _ => data,
    }
}

/// The kind that a binding phase is about to bind.
pub open spec fn binding_kind(p: Phase) -> SensorKind {
    match p {
        Phase::Binding(k, _) => k,
        _ => SensorKind::Gps,
    }
}

/// Same identifier counter and same bound sensors.
pub open spec fn same_registry(a: Dispatcher, b: Dispatcher) -> bool {
    a.next_id() == b.next_id() && a.ids() == b.ids() && a.kinds() == b.kinds()
}

pub open spec fn is_send(a: Action, id: u32, data: Seq<u8>) -> bool {
    a matches Action::Send { id: i, data: d } && i == id && d@ == data
}

fn single(a: Action) -> (r: Vec<Action>)
    ensures
        r@ == seq![a],
{
    let mut r: Vec<Action> = Vec::new();
    r.push(a);
    proof {
        assert(r@ =~= seq![a]);
    }
    r
}

/// One payload `data` run through decoder `d`: `d2` is the decoder afterwards and
/// `acts` what its output asks for.
pub open spec fn decoder_step(d: Decoder, data: Seq<u8>, d2: Decoder, acts: Seq<Action>) -> bool {
    match d {
        Decoder::Thermal(_) => d2 is Thermal && acts.len() == 1 && (data.len() == THERMAL_FRAME_LEN
            ==> (acts[0] matches Action::Store(Row::Thermal(r)) && r.celsius_bits == le_u32(data)))
            && (data.len() != THERMAL_FRAME_LEN ==> (acts[0] matches Action::Report(
            Notice::Thermal(ThermalError::WrongLength),
        ))),
        Decoder::Imu(m) => match imu_step(m.latest, data) {
            Err(e) => (d2 matches Decoder::Imu(m2) && m2.latest == m.latest) && acts.len() == 1 && (
            acts[0] matches Action::Report(Notice::Imu(x)) && x == e),
            Ok(step) => (d2 matches Decoder::Imu(m2) && m2.latest == step.0) && match step.1 {
                None => acts.len() == 0,
                Some(row) => acts.len() == 1 && (acts[0] matches Action::Store(Row::Imu(r)) && r
                    == row),
            },
        },
        Decoder::Gps(g) => (d2 matches Decoder::Gps(g2) && g2.pending() == feed(g.pending(), data).1
            && g2.terminal() == g.terminal()) && exists|evs: Seq<GpsEvent>|
            evs.len() == feed(g.pending(), data).0.len() && (forall|i: int|
                0 <= i < evs.len() ==> expected_event(feed(g.pending(), data).0[i], g.terminal(), #[trigger] evs[i]))
                && acts == #[trigger] gps_actions(evs),
    }
}

/// `acts` without its `Send` actions, the rest in order.
pub open spec fn without_sends(acts: Seq<Action>) -> Seq<Action>
    decreases acts.len(),
{
    if acts.len() == 0 {
        Seq::empty()
    } else if acts[0] is Send {
        without_sends(acts.drop_first())
    } else {
        seq![acts[0]] + without_sends(acts.drop_first())
    }
}

/// Every identifier is bound to the same decoder, in the same state, in `a` as in `b`.
pub open spec fn same_decoders(a: Dispatcher, b: Dispatcher) -> bool {
    forall|x: u8| #[trigger] a.decoder_at(x) == b.decoder_at(x)
}

/// The frame is one that `on_frame` routes to a bound decoder.
pub open spec fn is_routed(d: Dispatcher, frame: Frame) -> bool {
    d.phase() is Idle && !frame.extended && frame.id != CONFIG_CLIENT && frame.id != CONFIG_SERVER
        && frame.id < 0x100 && d.kind_at(frame.id as u8) is Some
}

/// A frame on bound identifier `id`, carrying `data`, was run through its decoder:
/// that decoder stepped as `decoder_step` says and no other decoder changed.
pub open spec fn routed(before: Dispatcher, after: Dispatcher, id: u8, data: Seq<u8>, acts: Seq<Action>) -> bool {
    &&& before.decoder_at(id) is Some && after.decoder_at(id) is Some
    &&& decoder_step(before.decoder_at(id)->Some_0, data, after.decoder_at(id)->Some_0, acts)
    &&& forall|x: u8| x != id ==> #[trigger] after.decoder_at(x) == before.decoder_at(x)
}

/// Position of the latest entry for `id` in `ids`, or -1 where there is none.
pub open spec fn bound_index(ids: Seq<u8>, id: u8) -> int
    decreases ids.len(),
{
    if ids.len() == 0 {
        -1
    } else if ids.last() == id {
        ids.len() - 1
    } else {
        bound_index(ids.drop_last(), id)
    }
}

proof fn lemma_bound_index_is(s: Seq<u8>, id: u8, k: int)
    requires
        -1 <= k < s.len(),
        k >= 0 ==> s[k] == id,
        forall|j: int| k < j < s.len() ==> #[trigger] s[j] != id,
    ensures
        bound_index(s, id) == k,
    decreases s.len(),
{
    if s.len() > 0 && k < s.len() - 1 {
        assert(s.last() == s[s.len() - 1]);
        assert forall|j: int| k < j < s.drop_last().len() implies #[trigger] s.drop_last()[j] != id by {
            assert(s.drop_last()[j] == s[j]);
        }
        lemma_bound_index_is(s.drop_last(), id, k);
    }
}

proof fn lemma_bound_index_range(s: Seq<u8>, id: u8)
    ensures
        -1 <= bound_index(s, id) < s.len(),
        bound_index(s, id) >= 0 ==> s[bound_index(s, id)] == id,
    decreases s.len(),
{
    if s.len() > 0 && s.last() != id {
        lemma_bound_index_range(s.drop_last(), id);
        if bound_index(s, id) >= 0 {
            assert(s.drop_last()[bound_index(s, id)] == s[bound_index(s, id)]);
        }
    }
}

/// What the loop is asked to do for one GPS event.
pub open spec fn gps_event_actions(e: GpsEvent) -> Seq<Action> {
    match e {
        GpsEvent::NotText => seq![Action::Report(Notice::GpsNotText)],
        GpsEvent::Rejected => seq![Action::Report(Notice::GpsRejected)],
        GpsEvent::Refused => seq![Action::Report(Notice::GpsRefused)],
        GpsEvent::Absorbed => seq![],
        GpsEvent::FixTypeMissing => seq![Action::Report(Notice::GpsFixTypeMissing)],
        GpsEvent::Fix(f) => seq![Action::Store(Row::Gps(f))],
    }
}

/// What the loop is asked to do for GPS events, in order.
pub open spec fn gps_actions(evs: Seq<GpsEvent>) -> Seq<Action>
    decreases evs.len(),
{
    if evs.len() == 0 {
        seq![]
    } else {
        gps_event_actions(evs[0]) + gps_actions(evs.drop_first())
    }
}

/// Runs one payload through a decoder: the decoder afterwards, of the same kind,
/// and what its output asks for.
fn run_decoder(d: Decoder, data: &[u8]) -> (r: (Decoder, Vec<Action>))
    ensures
        r.0.kind() == d.kind(),
        decoder_step(d, data@, r.0, r.1@),
{
    match d {
        Decoder::Gps(mut g) => {
            let mut events = g.decode(data);
            let ghost all = events@;
            let mut acts: Vec<Action> = Vec::new();
            proof {
                assert(acts@ + gps_actions(events@) =~= gps_actions(all));
            }
            while events.len() > 0
                invariant
                    acts@ + gps_actions(events@) == gps_actions(all),
                decreases events.len(),
            {
                let ghost before = events@;
                let e = events.remove(0);
                let ghost eg = e;
                proof {
                    assert(events@ =~= before.drop_first());
                    assert(eg == before[0]);
                }
                let next: Option<Action> = match e {
                    GpsEvent::NotText => Some(Action::Report(Notice::GpsNotText)),
                    GpsEvent::Rejected => Some(Action::Report(Notice::GpsRejected)),
                    GpsEvent::Refused => Some(Action::Report(Notice::GpsRefused)),
                    GpsEvent::Absorbed => None,
                    GpsEvent::FixTypeMissing => Some(Action::Report(Notice::GpsFixTypeMissing)),
                    GpsEvent::Fix(fix) => Some(Action::Store(Row::Gps(fix))),
                };
                proof {
                    assert(gps_event_actions(eg) =~= match next {
                        Some(a) => seq![a],
                        None => Seq::<Action>::empty(),
                    });
                }
                let ghost prev = acts@;
                match next {
                    Some(a) => {
                        acts.push(a);
                        proof {
                            assert(acts@ =~= prev + seq![a]);
                        }
                    },
                    None => {
                        proof {
                            assert(acts@ =~= prev + Seq::<Action>::empty());
                        }
                    },
                }
                proof {
                    assert(prev + (gps_event_actions(eg) + gps_actions(events@)) =~= (prev
                        + gps_event_actions(eg)) + gps_actions(events@));
                }
            }
            proof {
                assert(acts@ + Seq::<Action>::empty() =~= acts@);
                assert(acts@ == gps_actions(all));
            }
            (Decoder::Gps(g), acts)
        },
        Decoder::Imu(mut m) => {
            let acts = match m.decode(data) {
                Ok(Some(row)) => single(Action::Store(Row::Imu(row))),
                Ok(None) => Vec::new(),
                Err(e) => single(Action::Report(Notice::Imu(e))),
            };
            (Decoder::Imu(m), acts)
        },
        Decoder::Thermal(t) => {
            let acts = match t.decode(data) {
                Ok(row) => single(Action::Store(Row::Thermal(row))),
                Err(e) => single(Action::Report(Notice::Thermal(e))),
            };
            (Decoder::Thermal(t), acts)
        },
    }
}

impl Dispatcher {
    /// Handles one received frame.
    pub fn on_frame(&mut self, frame: &Frame) -> (actions: Vec<Action>)
        requires
            old(self).wf(),
        ensures
            final(self).wf(),
            final(self).ids_bounded(),
            !is_routed(*old(self), *frame) ==> same_decoders(*final(self), *old(self)),
            old(self).phase() is Idle && frame.extended ==> same_registry(*final(self), *old(self))
                && final(self).phase() is Idle && actions.len() == 0,
            old(self).phase() is Idle && !frame.extended && frame.id == CONFIG_CLIENT
                && old(self).next_id() < CONFIG_SERVER ==> same_registry(*final(self), *old(self))
                && (final(self).phase() matches Phase::AwaitingConfig(c) && c@.len() == 0)
                && actions.len() == 2 && is_send(actions[0], CONFIG_SERVER, frame.data@)
                && is_send(actions[1], CONFIG_SERVER, seq![old(self).next_id()]),
            old(self).phase() is Idle && !frame.extended && frame.id == CONFIG_CLIENT
                && old(self).next_id() >= CONFIG_SERVER ==> same_registry(*final(self), *old(self))
                && final(self).phase() is Idle && actions.len() == 1 && actions[0] is Halt,
            old(self).phase() is Idle && !frame.extended && frame.id == CONFIG_SERVER ==> same_registry(
                *final(self),
                *old(self),
            ) && final(self).phase() is Idle && actions.len() == 0,
            old(self).phase() is Idle && !frame.extended && frame.id != CONFIG_CLIENT && frame.id
                != CONFIG_SERVER && (frame.id >= 0x100 || old(self).kind_at(frame.id as u8) is None)
                ==> same_registry(*final(self), *old(self)) && final(self).phase() is Idle
                && actions.len() == 1 && (actions[0] matches Action::Report(Notice::Unregistered(i))
                && i == frame.id),
            old(self).phase() is Idle && !frame.extended && frame.id != CONFIG_CLIENT && frame.id
                != CONFIG_SERVER && frame.id < 0x100 && old(self).kind_at(frame.id as u8) is Some
                ==> same_registry(*final(self), *old(self)) && final(self).phase() is Idle
                && routed(*old(self), *final(self), frame.id as u8, frame.data@, actions@),
            old(self).phase() is AwaitingConfig && lacks(frame.data@, SENTENCE_END) ==> same_registry(
                *final(self),
                *old(self),
            ) && (final(self).phase() matches Phase::AwaitingConfig(c) && c@ == gathered(
                old(self).phase(),
                frame.data@,
            )) && actions.len() == 0,
            old(self).phase() is AwaitingConfig && has_end(frame.data@) && accepted_kind(
                gathered(old(self).phase(), frame.data@),
            ) is Some ==> same_registry(*final(self), *old(self)) && (final(self).phase() matches Phase::Binding(
                k,
                dev,
            ) && k == accepted_kind(gathered(old(self).phase(), frame.data@))->Some_0 && dev@
                == id_field(gathered(old(self).phase(), frame.data@))) && actions.len() == 1 && (
            actions[0] matches Action::EnsureSchema(k) && k == accepted_kind(
                gathered(old(self).phase(), frame.data@),
            )->Some_0),
            old(self).phase() is AwaitingConfig && has_end(frame.data@) && accepted_kind(
                gathered(old(self).phase(), frame.data@),
            ) is None ==> same_registry(*final(self), *old(self)) && final(self).phase() is Idle
                && actions.len() == 1 && (actions[0] matches Action::Report(Notice::ConfigRejected(_))),
            old(self).phase() is Binding ==> same_registry(*final(self), *old(self)) && final(self).phase() == old(self).phase() && actions.len() == 0,
    {
        let mut phase = Phase::Idle;
        std::mem::swap(&mut self.phase, &mut phase);
        match phase {
            Phase::Idle => self.route(frame),
            Phase::AwaitingConfig(config) => self.gather(config, &frame.data),
            Phase::Binding(k, dev) => {
                self.phase = Phase::Binding(k, dev);
                Vec::new()
            },
        }
    }

    fn route(&mut self, frame: &Frame) -> (actions: Vec<Action>)
        requires
            old(self).wf(),
            old(self).phase() is Idle,
        ensures
            final(self).wf(),
            final(self).ids_bounded(),
            !is_routed(*old(self), *frame) ==> same_decoders(*final(self), *old(self)),
            frame.extended ==> same_registry(*final(self), *old(self)) && final(self).phase() is Idle
                && actions.len() == 0,
            !frame.extended && frame.id == CONFIG_CLIENT && old(self).next_id() < CONFIG_SERVER
                ==> same_registry(*final(self), *old(self)) && (final(self).phase() matches Phase::AwaitingConfig(
                c,
            ) && c@.len() == 0) && actions.len() == 2 && is_send(actions[0], CONFIG_SERVER, frame.data@)
                && is_send(actions[1], CONFIG_SERVER, seq![old(self).next_id()]),
            !frame.extended && frame.id == CONFIG_CLIENT && old(self).next_id() >= CONFIG_SERVER
                ==> same_registry(*final(self), *old(self)) && final(self).phase() is Idle
                && actions.len() == 1 && actions[0] is Halt,
            !frame.extended && frame.id == CONFIG_SERVER ==> same_registry(*final(self), *old(self))
                && final(self).phase() is Idle && actions.len() == 0,
            !frame.extended && frame.id != CONFIG_CLIENT && frame.id != CONFIG_SERVER && (frame.id
                >= 0x100 || old(self).kind_at(frame.id as u8) is None) ==> same_registry(
                *final(self),
                *old(self),
            ) && final(self).phase() is Idle && actions.len() == 1 && (actions[0] matches Action::Report(
                Notice::Unregistered(i),
            ) && i == frame.id),
            !frame.extended && frame.id != CONFIG_CLIENT && frame.id != CONFIG_SERVER && frame.id
                < 0x100 && old(self).kind_at(frame.id as u8) is Some ==> same_registry(
                *final(self),
                *old(self),
            ) && final(self).phase() is Idle && routed(*old(self), *final(self), frame.id as u8, frame.data@, actions@),
    {
        if frame.extended || frame.id == CONFIG_SERVER {
            return Vec::new();
        }
        if frame.id == CONFIG_CLIENT {
            if self.next_id as u32 >= CONFIG_SERVER {
                return single(Action::Halt);
            }
            let echo = copy_range(&frame.data, 0, frame.data.len());
            proof {
                assert(echo@ =~= frame.data@);
            }
            let assigned = vec![self.next_id];
            proof {
                assert(assigned@ =~= seq![self.next_id]);
            }
            let mut acts: Vec<Action> = Vec::new();
            acts.push(Action::Send { id: CONFIG_SERVER, data: echo });
            acts.push(Action::Send { id: CONFIG_SERVER, data: assigned });
            self.phase = Phase::AwaitingConfig(Vec::new());
            return acts;
        }
        if frame.id >= 0x100 {
            return single(Action::Report(Notice::Unregistered(frame.id)));
        }
        match self.position(frame.id as u8) {
            None => single(Action::Report(Notice::Unregistered(frame.id))),
            Some(i) => {
                let ghost before = self.decoders@;
                proof {
                    assert(self.kinds()[i as int] == self.decoders@[i as int].kind());
                }
                let d = self.decoders.remove(i);
                let (d2, acts) = run_decoder(d, frame.data.as_slice());
                self.decoders.insert(i, d2);
                proof {
                    assert(self.decoders@ =~= before.update(i as int, d2));
                    assert(kinds_of(self.decoders@) =~= kinds_of(before));
                    assert forall|x: u8| x != frame.id as u8 implies #[trigger] self.decoder_at(x)
                        == old(self).decoder_at(x) by {
                        lemma_bound_index_range(self.ids@, x);
                    }
                }
                acts
            },
        }
    }

    fn gather(&mut self, config: Vec<u8>, data: &Vec<u8>) -> (actions: Vec<Action>)
        requires
            old(self).wf(),
            old(self).phase() is Idle,
            old(self).next_id() < CONFIG_SERVER,
        ensures
            final(self).wf(),
            final(self).ids_bounded(),
            same_decoders(*final(self), *old(self)),
            same_registry(*final(self), *old(self)),
            lacks(data@, SENTENCE_END) ==> (final(self).phase() matches Phase::AwaitingConfig(c)
                && c@ == config@ + data@) && actions.len() == 0,
            has_end(data@) && accepted_kind(config@ + data@) is Some ==> (final(self).phase() matches Phase::Binding(
                k,
                dev,
            ) && k == accepted_kind(config@ + data@)->Some_0 && dev@ == id_field(config@ + data@))
                && actions.len() == 1 && (actions[0] matches Action::EnsureSchema(k) && k
                == accepted_kind(config@ + data@)->Some_0),
            has_end(data@) && accepted_kind(config@ + data@) is None ==> final(self).phase() is Idle
                && actions.len() == 1 && (actions[0] matches Action::Report(Notice::ConfigRejected(_))),
    {
        let mut c = config;
        let mut i: usize = 0;
        while i < data.len()
            invariant
                i <= data.len(),
                c@ == config@ + data@.take(i as int),
            decreases data.len() - i,
        {
            c.push(data[i]);
            i = i + 1;
            proof {
                assert(c@ =~= config@ + data@.take(i as int));
            }
        }
        proof {
            assert(data@.take(data@.len() as int) =~= data@);
        }
        let k = find_byte(data, 0, SENTENCE_END);
        if k == data.len() {
            self.phase = Phase::AwaitingConfig(c);
            return Vec::new();
        }
        match parse_config(&c) {
            Ok(cfg) => {
                let kind = cfg.kind;
                self.phase = Phase::Binding(kind, cfg.device_id);
                single(Action::EnsureSchema(kind))
            },
            Err(e) => single(Action::Report(Notice::ConfigRejected(e))),
        }
    }

    /// Completes a binding once the store has answered: on success the decoder is
    /// bound to the identifier handed out and the counter advances; on failure the
    /// registration is abandoned.
    pub fn on_schema(&mut self, created: bool) -> (actions: Vec<Action>)
        requires
            old(self).wf(),
        ensures
            final(self).wf(),
            final(self).ids_bounded(),
            !(old(self).phase() is Binding && created) ==> same_decoders(*final(self), *old(self)),
            old(self).phase() is Binding && created ==> (final(self).decoder_at(old(self).next_id())
                matches Some(d) && d.kind() == binding_kind(old(self).phase())),
            old(self).phase() is Binding && created ==> forall|x: u8|
                x != old(self).next_id() ==> #[trigger] final(self).decoder_at(x) == old(self).decoder_at(x),
            old(self).phase() is Binding && created ==> final(self).ids() == old(self).ids().push(
                old(self).next_id(),
            ) && final(self).kinds() == old(self).kinds().push(binding_kind(old(self).phase()))
                && final(self).next_id() == old(self).next_id() + 1 && final(self).phase() is Idle
                && actions.len() == 1 && (actions[0] matches Action::Report(
                Notice::Registered { sensor_id, kind, device_id: _ },
            ) && sensor_id == old(self).next_id() && kind == binding_kind(old(self).phase())),
            old(self).phase() is Binding ==> old(self).next_id() < CONFIG_SERVER,
            old(self).phase() is Binding && created ==> old(self).kind_at(old(self).next_id()) is None
                && final(self).kind_at(old(self).next_id()) == Some(binding_kind(old(self).phase())),
            old(self).phase() is Binding && created ==> forall|id: u8|
                id != old(self).next_id() ==> #[trigger] final(self).kind_at(id) == old(self).kind_at(id),
            old(self).phase() is Binding && !created ==> same_registry(*final(self), *old(self))
                && final(self).phase() is Idle && actions.len() == 1 && (actions[0] matches Action::Report(
                Notice::SchemaFailed(k),
            ) && k == binding_kind(old(self).phase())),
            !(old(self).phase() is Binding) ==> same_registry(*final(self), *old(self)) && final(self).phase() == old(self).phase() && actions.len() == 0,
    {
        let mut phase = Phase::Idle;
        std::mem::swap(&mut self.phase, &mut phase);
        match phase {
            Phase::Binding(kind, device_id) => {
                if !created {
                    return single(Action::Report(Notice::SchemaFailed(kind)));
                }
                let id = self.next_id;
                let ghost before = self.decoders@;
                self.ids.push(id);
                self.decoders.push(Decoder::for_kind(kind));
                self.next_id = id + 1;
                proof {
                    assert(kinds_of(self.decoders@) =~= kinds_of(before).push(kind));
                    old(self).lemma_unbound_next();
                    assert forall|x: u8| #[trigger] bound_kind(self.ids@, self.kinds(), x) == if x == id {
                        Some(kind)
                    } else {
                        bound_kind(old(self).ids@, old(self).kinds(), x)
                    } by {
                        lemma_bound_push(old(self).ids@, old(self).kinds(), id, kind, x);
                    }
                    assert(self.ids@.drop_last() =~= old(self).ids@);
                    assert forall|x: u8| x != id implies #[trigger] self.decoder_at(x) == old(self).decoder_at(x) by {
                        lemma_bound_index_range(old(self).ids@, x);
                    }
                    assert forall|i: int| 0 <= i < self.ids@.len() implies FIRST_SENSOR_ID
                        <= #[trigger] self.ids@[i] < self.next_id by {
                        if i < self.ids@.len() - 1 {
                            assert(self.ids@[i] == old(self).ids@[i]);
                        }
                    }
                }
                single(Action::Report(Notice::Registered { sensor_id: id, kind, device_id }))
            },
            other => {
                self.phase = other;
                Vec::new()
            },
        }
    }

    /// A failed send: the registration under way, if it awaits its configuration, is
    /// abandoned, and of the actions still `pending` the sends are dropped.
    pub fn on_send_failed(&mut self, pending: Vec<Action>) -> (rest: Vec<Action>)
        requires
            old(self).wf(),
        ensures
            final(self).wf(),
            final(self).ids_bounded(),
            same_decoders(*final(self), *old(self)),
            same_registry(*final(self), *old(self)),
            old(self).phase() is AwaitingConfig ==> final(self).phase() is Idle,
            !(old(self).phase() is AwaitingConfig) ==> final(self).phase() == old(self).phase(),
            rest@ == without_sends(pending@),
    {
        self.on_transport_error();
        let mut todo = pending;
        let mut rest: Vec<Action> = Vec::new();
        proof {
            assert(rest@ + without_sends(todo@) =~= without_sends(pending@));
        }
        while todo.len() > 0
            invariant
                rest@ + without_sends(todo@) == without_sends(pending@),
            decreases todo.len(),
        {
            let ghost before = todo@;
            let a = todo.remove(0);
            proof {
                assert(todo@ =~= before.drop_first());
            }
            let is_send = match a {
                Action::Send { .. } => true,
                _ => false,
            };
            if !is_send {
                let ghost prev = rest@;
                rest.push(a);
                proof {
                    assert(prev + (seq![a] + without_sends(todo@)) =~= prev.push(a) + without_sends(todo@));
                }
            }
        }
        proof {
            assert(rest@ + Seq::<Action>::empty() =~= rest@);
        }
        rest
    }

    /// A transport failure: it abandons a registration that awaits its configuration.
    pub fn on_transport_error(&mut self)
        requires
            old(self).wf(),
        ensures
            final(self).wf(),
            final(self).ids_bounded(),
            same_decoders(*final(self), *old(self)),
            same_registry(*final(self), *old(self)),
            old(self).phase() is AwaitingConfig ==> final(self).phase() is Idle,
            !(old(self).phase() is AwaitingConfig) ==> final(self).phase() == old(self).phase(),
    {
        let mut phase = Phase::Idle;
        std::mem::swap(&mut self.phase, &mut phase);
        match phase {
            Phase::AwaitingConfig(_) => {},
            other => {
                self.phase = other;
            },
        }
    }
}

proof fn lemma_bound_absent(ids: Seq<u8>, kinds: Seq<SensorKind>, id: u8)
    requires
        forall|i: int| 0 <= i < ids.len() ==> #[trigger] ids[i] != id,
    ensures
        bound_kind(ids, kinds, id) is None,
    decreases ids.len(),
{
    if ids.len() > 0 && kinds.len() == ids.len() {
        assert(ids.last() == ids[ids.len() - 1]);
        assert forall|i: int| 0 <= i < ids.drop_last().len() implies #[trigger] ids.drop_last()[i] != id by {
            assert(ids.drop_last()[i] == ids[i]);
        }
        lemma_bound_absent(ids.drop_last(), kinds.drop_last(), id);
    }
}

proof fn lemma_bound_push(ids: Seq<u8>, kinds: Seq<SensorKind>, n: u8, k: SensorKind, id: u8)
    requires
        ids.len() == kinds.len(),
    ensures
        bound_kind(ids.push(n), kinds.push(k), id) == if id == n {
            Some(k)
        } else {
            bound_kind(ids, kinds, id)
        },
{
    assert(ids.push(n).drop_last() =~= ids);
    assert(kinds.push(k).drop_last() =~= kinds);
}

} // verus!
