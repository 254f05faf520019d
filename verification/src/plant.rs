//! The robot daemon's end of the wire to a simulated robot: what is asked, which reply
//! answers it, and what a reply is taken to mean.
//!
//! One `step` advances the plant one control period, and the sensors that period produced are
//! kept for the next read. The loop reads before it ever writes, so a read with nothing kept
//! asks the plant for its current state without stepping.
//!
//! Replies are lines of JSON. Measured numbers are carried through unread, as the 64 bits of
//! their representation ([`Bits`]).

use vstd::prelude::*;

use crate::text::{numeral, numeral_of};

verus! {

/// The protocol this build speaks.
pub const PROTOCOL_VERSION: u64 = 1;

/// How many joints the robot has.
pub const NUM_JOINTS: usize = 15;

/// The bits of a measured number.
pub type Bits = u64;

/// What `serde_json` says is wrong with a text, if it is not JSON.
pub uninterp spec fn json_fault(text: Seq<char>) -> Option<Seq<char>>;

/// What `serde_json` finds as an unsigned number in a field of a JSON object.
pub uninterp spec fn json_u64(text: Seq<char>, field: Seq<char>) -> Option<u64>;

/// What `serde_json` finds as a truth value in a field of a JSON object.
pub uninterp spec fn json_bool(text: Seq<char>, field: Seq<char>) -> Option<bool>;

/// What `serde_json` finds as a string in a field of a JSON object.
pub uninterp spec fn json_str(text: Seq<char>, field: Seq<char>) -> Option<Seq<char>>;

/// What `serde_json` finds as a number in a field of a JSON object, as bits.
pub uninterp spec fn json_number(text: Seq<char>, field: Seq<char>) -> Option<u64>;

/// What `serde_json` finds as a list in a field of a JSON object: each entry as the bits of a
/// number, where it is one.
pub uninterp spec fn json_list(text: Seq<char>, field: Seq<char>) -> Option<Seq<Option<u64>>>;

pub open spec fn text_of(s: Option<String>) -> Option<Seq<char>> {
    match s {
        Some(s) => Some(s@),
        None => None,
    }
}

/// `serde_json::from_str` into a `serde_json::Value`: the error's own words, if there is one.
/// Claims that they are settled by the text alone.
#[verifier::external_body]
fn fault_of(text: &str) -> (e: Option<String>)
    ensures
        text_of(e) == json_fault(text@),
{
    let parsed: Result<serde_json::Value, serde_json::Error> = serde_json::from_str(text);
    parsed.err().map(|e| e.to_string())
}

/// `serde_json::Value::as_u64` of a field that `serde_json::Value::get` finds in what
/// `serde_json::from_str` makes of the text. Claims that it is settled by the text and the
/// field's name alone.
#[verifier::external_body]
fn u64_field(text: &str, field: &str) -> (v: Option<u64>)
    ensures
        v == json_u64(text@, field@),
{
    let parsed: serde_json::Value = serde_json::from_str(text).ok()?;
    parsed.get(field)?.as_u64()
}

/// `serde_json::Value::as_bool` of a field that `serde_json::Value::get` finds in what
/// `serde_json::from_str` makes of the text. Claims that it is settled by the text and the
/// field's name alone.
#[verifier::external_body]
fn bool_field(text: &str, field: &str) -> (v: Option<bool>)
    ensures
        v == json_bool(text@, field@),
{
    let parsed: serde_json::Value = serde_json::from_str(text).ok()?;
    parsed.get(field)?.as_bool()
}

/// `serde_json::Value::as_str` of a field that `serde_json::Value::get` finds in what
/// `serde_json::from_str` makes of the text. Claims that it is settled by the text and the
/// field's name alone.
#[verifier::external_body]
fn str_field(text: &str, field: &str) -> (v: Option<String>)
    ensures
        text_of(v) == json_str(text@, field@),
{
    let parsed: serde_json::Value = serde_json::from_str(text).ok()?;
    parsed.get(field)?.as_str().map(|s| s.to_owned())
}

/// `serde_json::Value::as_f64` of a field that `serde_json::Value::get` finds in what
/// `serde_json::from_str` makes of the text, as bits. Claims that it is settled by the text
/// and the field's name alone.
#[verifier::external_body]
fn number_field(text: &str, field: &str) -> (v: Option<u64>)
    ensures
        v == json_number(text@, field@),
{
    let parsed: serde_json::Value = serde_json::from_str(text).ok()?;
    parsed.get(field)?.as_f64().map(|v| v.to_bits())
}

pub open spec fn entries_of(v: Option<Vec<Option<u64>>>) -> Option<Seq<Option<u64>>> {
    match v {
        Some(v) => Some(v@),
        None => None,
    }
}

/// `serde_json::Value::as_array` of a field that `serde_json::Value::get` finds in what
/// `serde_json::from_str` makes of the text, each entry by `serde_json::Value::as_f64`, as
/// bits. Claims that it is settled by the text and the field's name alone.
#[verifier::external_body]
fn list_field(text: &str, field: &str) -> (v: Option<Vec<Option<u64>>>)
    ensures
        entries_of(v) == json_list(text@, field@),
{
    let parsed: serde_json::Value = serde_json::from_str(text).ok()?;
    let list = parsed.get(field)?.as_array()?;
    Some(list.iter().map(|v| v.as_f64().map(|v| v.to_bits())).collect())
}

/// What the plant can be asked.
pub enum Request {
    /// Shake hands.
    Hello,
    /// The sensors as they are; steps nothing.
    Read,
    /// One control period towards the targets, a JSON list of numbers.
    Step { targets: String },
    Gain { kp: u16 },
    Torque { on: bool },
    /// Voltage and temperatures.
    Slow,
}

impl Request {
    /// The line that asks for it, under a sequence number that the plant echoes.
    pub open spec fn line(self, seq: u64) -> Seq<char> {
        match self {
            Request::Hello => "{\"op\":\"hello\",\"seq\":"@ + numeral(seq as nat)
                + ",\"version\":1}\n"@,
            Request::Read => "{\"op\":\"read\",\"seq\":"@ + numeral(seq as nat) + "}\n"@,
            Request::Step { targets } => "{\"op\":\"step\",\"seq\":"@ + numeral(seq as nat)
                + ",\"targets\":"@ + targets@ + "}\n"@,
            Request::Gain { kp } => "{\"kp\":"@ + numeral(kp as nat) + ",\"op\":\"gain\",\"seq\":"@
                + numeral(seq as nat) + "}\n"@,
            Request::Torque { on } => "{\"on\":"@ + (if on {
                "true"@
            } else {
                "false"@
            }) + ",\"op\":\"torque\",\"seq\":"@ + numeral(seq as nat) + "}\n"@,
            Request::Slow => "{\"op\":\"slow\",\"seq\":"@ + numeral(seq as nat) + "}\n"@,
        }
    }

    fn line_of(&self, seq: u64) -> (t: String)
        ensures
            t@ == self.line(seq),
    {
        let n = numeral_of(seq);
        match self {
            Request::Hello => {
                let mut t = "{\"op\":\"hello\",\"seq\":".to_owned();
                t.append(n.as_str());
                t.append(",\"version\":1}\n");
                t
            },
            Request::Read => {
                let mut t = "{\"op\":\"read\",\"seq\":".to_owned();
                t.append(n.as_str());
                t.append("}\n");
                t
            },
            Request::Step { targets } => {
                let mut t = "{\"op\":\"step\",\"seq\":".to_owned();
                t.append(n.as_str());
                t.append(",\"targets\":");
                t.append(targets.as_str());
                t.append("}\n");
                t
            },
            Request::Gain { kp } => {
                let mut t = "{\"kp\":".to_owned();
                t.append(numeral_of(*kp as u64).as_str());
                t.append(",\"op\":\"gain\",\"seq\":");
                t.append(n.as_str());
                t.append("}\n");
                t
            },
            Request::Torque { on } => {
                let mut t = "{\"on\":".to_owned();
                t.append(
                    if *on {
                        "true"
                    } else {
                        "false"
                    },
                );
                t.append(",\"op\":\"torque\",\"seq\":");
                t.append(n.as_str());
                t.append("}\n");
                t
            },
            Request::Slow => {
                let mut t = "{\"op\":\"slow\",\"seq\":".to_owned();
                t.append(n.as_str());
                t.append("}\n");
                t
            },
        }
    }
}

/// What went wrong with the plant.
#[derive(Debug)]
pub enum PlantError {
    /// It said no, or said something that cannot be used.
    Bus(String),
    /// Too few or too many of something.
    ShortRead { expected: usize, got: usize },
}

/// A fault with these words.
pub open spec fn is_bus(e: PlantError, why: Seq<char>) -> bool {
    e matches PlantError::Bus(s) && s@ == why
}

/// What a line from the plant is.
#[derive(Debug)]
pub enum Heard {
    /// A late answer to an earlier request: wait for the next line.
    Late,
    /// The answer, and it is no.
    Refused(PlantError),
    /// The answer.
    Answered,
}

/// The sensors of one control period.
#[derive(Debug, Clone, Copy, PartialEq, Eq)]
pub struct Sensors {
    pub positions: [Bits; 15],
    pub velocities: [Bits; 15],
    pub gyro: [Bits; 3],
    pub gravity: [Bits; 3],
    pub quat: [Bits; 4],
}

/// A sensor frame as the plant sends it.
pub struct Frame {
    pub pos: Vec<Bits>,
    pub vel: Vec<Bits>,
    pub gyro: [Bits; 3],
    pub gravity: [Bits; 3],
    pub quat: [Bits; 4],
    pub imu_ready: bool,
}

impl Frame {
    /// A position and a velocity for every joint.
    pub open spec fn is_whole(self) -> bool {
        self.pos@.len() == NUM_JOINTS && self.vel@.len() == NUM_JOINTS
    }

    /// `s` is what the frame says.
    pub open spec fn says(self, s: Sensors) -> bool {
        &&& s.positions@ == self.pos@
        &&& s.velocities@ == self.vel@
        &&& s.gyro == self.gyro
        &&& s.gravity == self.gravity
        &&& s.quat == self.quat
    }

    /// What a frame that is not whole comes to: the shorter of its two lists.
    pub open spec fn shortfall(self) -> PlantError {
        PlantError::ShortRead {
            expected: NUM_JOINTS,
            got: if self.pos@.len() < self.vel@.len() {
                self.pos@.len() as usize
            } else {
                self.vel@.len() as usize
            },
        }
    }
}

/// The slow sensors.
#[derive(Debug, Clone, Copy, PartialEq, Eq)]
pub struct SlowSensors {
    pub volts: Bits,
    pub temps_c: [Bits; 15],
}

/// How a read begins.
#[derive(Debug)]
pub enum Reading {
    /// The sensors are at hand, and nothing is asked.
    Kept(Sensors),
    /// The plant has to be asked: the line to send.
    Ask(String),
}

/// The conversation with a plant.
pub struct Plant {
    /// The sensors produced by the last step, not yet handed to the loop.
    pub pending: Option<Sensors>,
    /// Every request carries a sequence number the plant echoes. A reply that arrives after
    /// its request timed out is then recognised and dropped instead of being taken for the
    /// answer to the next request.
    pub seq: u64,
    pub imu_ready: bool,
    pub model: String,
}

impl Plant {
    /// Before anything was said.
    pub fn new() -> (p: Plant)
        ensures
            p.pending is None,
            p.seq == 0,
            !p.imu_ready,
            p.model@.len() == 0,
    {
        Plant { pending: None, seq: 0, imu_ready: false, model: String::new() }
    }

    /// Number a request and write it down.
    pub fn ask(&mut self, request: &Request) -> (line: String)
        requires
            old(self).seq < u64::MAX,
        ensures
            line@ == request.line((old(self).seq + 1) as u64),
            *final(self) == (Plant { seq: (old(self).seq + 1) as u64, ..*old(self) }),
    {
        self.seq = self.seq + 1;
        request.line_of(self.seq)
    }

    /// What a line is, given what is wrong with it and its fields.
    pub open spec fn is_heard(
        self,
        h: Heard,
        fault: Option<Seq<char>>,
        seq: Option<u64>,
        ok: Option<bool>,
        error: Option<Seq<char>>,
    ) -> bool {
        match fault {
            Some(why) => h matches Heard::Refused(e) && is_bus(e, "plant reply: "@ + why),
            None => if seq matches Some(got) && got < self.seq {
                h is Late
            } else if ok != Some(true) {
                h matches Heard::Refused(e) && is_bus(
                    e,
                    match error {
                        Some(why) => why,
                        None => "plant said no"@,
                    },
                )
            } else {
                h is Answered
            },
        }
    }

    /// Judge a line by what is wrong with it and by its fields: it is not JSON; or it carries
    /// an earlier sequence number and is late; or it does not say it is well.
    pub fn judge(
        &self,
        fault: Option<String>,
        seq: Option<u64>,
        ok: Option<bool>,
        error: Option<String>,
    ) -> (h: Heard)
        ensures
            self.is_heard(h, text_of(fault), seq, ok, text_of(error)),
    {
        if let Some(why) = fault {
            let mut t = "plant reply: ".to_owned();
            t.append(why.as_str());
            return Heard::Refused(PlantError::Bus(t));
        }
        if let Some(got) = seq {
            if got < self.seq {
                return Heard::Late;
            }
        }
        let well: bool = match ok {
            Some(v) => v,
            None => false,
        };
        if !well {
            return Heard::Refused(
                PlantError::Bus(
                    match error {
                        Some(why) => why,
                        None => "plant said no".to_owned(),
                    },
                ),
            );
        }
        Heard::Answered
    }

    /// What a line from the plant is.
    pub fn hear(&self, line: &str) -> (h: Heard)
        ensures
            self.is_heard(
                h,
                json_fault(line@),
                json_u64(line@, "seq"@),
                json_bool(line@, "ok"@),
                json_str(line@, "error"@),
            ),
    {
        self.judge(
            fault_of(line),
            u64_field(line, "seq"),
            bool_field(line, "ok"),
            str_field(line, "error"),
        )
    }

    /// Shake hands, given the version and the model that the plant says it has: the versions
    /// must agree. No version counts as version 0, no model is written as a question mark.
    pub fn meet_as(&mut self, version: Option<u64>, model: Option<String>) -> (r: Result<
        (),
        PlantError,
    >)
        ensures
            match r {
                Ok(_) => version == Some(PROTOCOL_VERSION) && final(self).model@ == (match model {
                    Some(m) => m@,
                    None => "?"@,
                }),
                Err(e) => {
                    &&& version != Some(PROTOCOL_VERSION)
                    &&& is_bus(
                        e,
                        "plant speaks protocol "@ + numeral(
                            match version {
                                Some(v) => v as nat,
                                None => 0,
                            },
                        ) + ", this robotd speaks 1"@,
                    )
                    &&& final(self).model == old(self).model
                },
            },
            final(self).pending == old(self).pending,
            final(self).seq == old(self).seq,
            final(self).imu_ready == old(self).imu_ready,
    {
        let v: u64 = match version {
            Some(v) => v,
            None => 0,
        };
        if v != PROTOCOL_VERSION {
            let mut t = "plant speaks protocol ".to_owned();
            t.append(numeral_of(v).as_str());
            t.append(", this robotd speaks 1");
            return Err(PlantError::Bus(t));
        }
        self.model =
        match model {
            Some(m) => m,
            None => "?".to_owned(),
        };
        Ok(())
    }

    /// Shake hands by the plant's answer to hello.
    pub fn meet(&mut self, line: &str) -> (r: Result<(), PlantError>)
        ensures
            match r {
                Ok(_) => json_u64(line@, "version"@) == Some(PROTOCOL_VERSION) && final(self).model@
                    == (match json_str(line@, "model"@) {
                    Some(m) => m,
                    None => "?"@,
                }),
                Err(e) => {
                    &&& json_u64(line@, "version"@) != Some(PROTOCOL_VERSION)
                    &&& is_bus(
                        e,
                        "plant speaks protocol "@ + numeral(
                            match json_u64(line@, "version"@) {
                                Some(v) => v as nat,
                                None => 0,
                            },
                        ) + ", this robotd speaks 1"@,
                    )
                    &&& final(self).model == old(self).model
                },
            },
            final(self).pending == old(self).pending,
            final(self).seq == old(self).seq,
            final(self).imu_ready == old(self).imu_ready,
    {
        let version = u64_field(line, "version");
        let model = str_field(line, "model");
        self.meet_as(version, model)
    }

    /// Take a frame for the sensors. It must have a position and a velocity for every joint.
    pub fn sensors_from(&mut self, frame: &Frame) -> (r: Result<Sensors, PlantError>)
        ensures
            match r {
                Ok(s) => frame.is_whole() && frame.says(s) && *final(self) == (Plant {
                    imu_ready: frame.imu_ready,
                    ..*old(self)
                }),
                Err(e) => !frame.is_whole() && e == frame.shortfall() && *final(self) == *old(self),
            },
    {
        if frame.pos.len() != NUM_JOINTS || frame.vel.len() != NUM_JOINTS {
            let got: usize = if frame.pos.len() < frame.vel.len() {
                frame.pos.len()
            } else {
                frame.vel.len()
            };
            return Err(PlantError::ShortRead { expected: NUM_JOINTS, got });
        }
        let mut positions: [Bits; 15] = [0; 15];
        let mut velocities: [Bits; 15] = [0; 15];
        let mut i: usize = 0;
        while i < NUM_JOINTS
            invariant
                i <= NUM_JOINTS,
                frame.pos@.len() == NUM_JOINTS,
                frame.vel@.len() == NUM_JOINTS,
                forall|j: int| 0 <= j < i ==> #[trigger] positions@[j] == frame.pos@[j],
                forall|j: int| 0 <= j < i ==> #[trigger] velocities@[j] == frame.vel@[j],
            decreases NUM_JOINTS - i,
        {
            positions[i] = frame.pos[i];
            velocities[i] = frame.vel[i];
            i += 1;
        }
        proof {
            assert(positions@ =~= frame.pos@);
            assert(velocities@ =~= frame.vel@);
        }
        self.imu_ready = frame.imu_ready;
        Ok(
            Sensors {
                positions,
                velocities,
                gyro: frame.gyro,
                gravity: frame.gravity,
                quat: frame.quat,
            },
        )
    }

    /// After a step whose sensors are `s`.
    pub open spec fn kept(self, s: Sensors, imu_ready: bool) -> Plant {
        Plant { pending: Some(s), imu_ready, ..self }
    }

    /// After a read that found something kept, or nothing.
    pub open spec fn taken(self) -> Plant {
        Plant { pending: None, ..self }
    }

    /// A read: what the last step left, if anything; otherwise the plant has to be asked.
    pub fn take_pending(&mut self) -> (s: Option<Sensors>)
        ensures
            s == old(self).pending,
            *final(self) == old(self).taken(),
    {
        let s = self.pending;
        self.pending = None;
        s
    }

    /// Begin a read: the sensors of the last step, once, and nothing is asked; or, with none
    /// kept, a request that steps nothing.
    pub fn begin_read(&mut self) -> (r: Reading)
        requires
            old(self).pending is Some || old(self).seq < u64::MAX,
        ensures
            match old(self).pending {
                Some(s) => r == Reading::Kept(s) && *final(self) == old(self).taken(),
                None => {
                    &&& r matches Reading::Ask(line)
                    &&& line@ == Request::Read.line((old(self).seq + 1) as u64)
                    &&& *final(self) == (Plant { seq: (old(self).seq + 1) as u64, ..*old(self) })
                },
            },
    {
        match self.take_pending() {
            Some(s) => Reading::Kept(s),
            None => Reading::Ask(self.ask(&Request::Read)),
        }
    }

    /// The answer to a step: its sensors are kept for the next read.
    pub fn stepped(&mut self, frame: &Frame) -> (r: Result<(), PlantError>)
        ensures
            match r {
                Ok(_) => {
                    &&& frame.is_whole()
                    &&& final(self).pending matches Some(s)
                    &&& frame.says(s)
                    &&& *final(self) == old(self).kept(s, frame.imu_ready)
                },
                Err(e) => !frame.is_whole() && e == frame.shortfall() && *final(self) == *old(self),
            },
    {
        match self.sensors_from(frame) {
            Ok(s) => {
                self.pending = Some(s);
                Ok(())
            },
            Err(e) => Err(e),
        }
    }
}

/// The slow sensors, given the voltage and the temperatures that the plant says: there must be
/// a voltage; a temperature that is missing or no number is zero, and those past the last
/// joint are dropped.
pub fn slow_as(volts: Option<Bits>, temps: Option<Vec<Option<Bits>>>) -> (r: Result<
    SlowSensors,
    PlantError,
>)
    ensures
        is_slow(r, volts, entries_of(temps)),
{
    let v: Bits = match volts {
        Some(v) => v,
        None => {
            return Err(PlantError::Bus("plant slow: no volts".to_owned()));
        },
    };
    let mut temps_c: [Bits; 15] = [0; 15];
    if let Some(list) = &temps {
        let mut i: usize = 0;
        while i < NUM_JOINTS && i < list.len()
            invariant
                i <= NUM_JOINTS,
                i <= list@.len(),
                temps == Some(*list),
                forall|j: int|
                    0 <= j < i ==> #[trigger] temps_c@[j] == temp_at(entries_of(temps), j),
                forall|j: int| i <= j < NUM_JOINTS ==> #[trigger] temps_c@[j] == 0,
            decreases NUM_JOINTS - i,
        {
            if let Some(t) = list[i] {
                temps_c[i] = t;
            }
            i += 1;
        }
    }
    Ok(SlowSensors { volts: v, temps_c })
}

/// The temperature of joint `i`.
pub open spec fn temp_at(temps: Option<Seq<Option<u64>>>, i: int) -> Bits {
    match temps {
        Some(list) => if i < list.len() {
            match list[i] {
                Some(t) => t,
                None => 0,
            }
        } else {
            0
        },
        None => 0,
    }
}

pub open spec fn is_slow(
    r: Result<SlowSensors, PlantError>,
    volts: Option<Bits>,
    temps: Option<Seq<Option<u64>>>,
) -> bool {
    match volts {
        Some(v) => {
            &&& r matches Ok(s)
            &&& s.volts == v
            &&& forall|i: int| 0 <= i < NUM_JOINTS ==> #[trigger] s.temps_c@[i] == temp_at(temps, i)
        },
        None => r matches Err(e) && is_bus(e, "plant slow: no volts"@),
    }
}

/// The slow sensors, by the plant's answer.
pub fn slow_from(line: &str) -> (r: Result<SlowSensors, PlantError>)
    ensures
        is_slow(r, json_number(line@, "volts"@), json_list(line@, "temps_c"@)),
{
    let volts = number_field(line, "volts");
    let temps = list_field(line, "temps_c");
    slow_as(volts, temps)
}

/// A reply to an earlier request is never taken for the answer to the last one, and a reply
/// that echoes the last one's number is never taken for late.
pub proof fn law_late_replies_are_dropped(
    p: Plant,
    h: Heard,
    seq: u64,
    ok: Option<bool>,
    error: Option<Seq<char>>,
)
    requires
        p.is_heard(h, None, Some(seq), ok, error),
    ensures
        seq < p.seq <==> h is Late,
        h is Answered ==> seq >= p.seq && ok == Some(true),
{
}

/// One thing the robot daemon does with its plant.
pub enum Turn {
    /// A read; where the plant is asked, what its frame says of the imu.
    Read { imu_ready: bool },
    /// A step, and what came of it: sensors, or a failure.
    Step { targets: String, answer: Option<(Sensors, bool)> },
    /// A gain, a torque, the slow sensors.
    Other(Request),
}

impl Turn {
    /// What is sent to the plant, with `p` before it.
    pub open spec fn asks(self, p: Plant) -> Seq<Request> {
        match self {
            Turn::Read { imu_ready } => match p.pending {
                Some(_) => Seq::empty(),
                None => seq![Request::Read],
            },
            Turn::Step { targets, answer } => seq![Request::Step { targets }],
            Turn::Other(request) => seq![request],
        }
    }

    /// The conversation after it.
    pub open spec fn leaves(self, p: Plant) -> Plant {
        let asked = Plant { seq: (p.seq + 1) as u64, ..p };
        match self {
            Turn::Read { imu_ready } => match p.pending {
                Some(_) => p.taken(),
                None => Plant { imu_ready, ..asked },
            },
            Turn::Step { targets, answer } => match answer {
                Some((s, imu_ready)) => asked.kept(s, imu_ready),
                None => asked,
            },
            Turn::Other(_) => asked,
        }
    }
}

/// The conversation after `turns`, in order.
pub open spec fn after_turns(p: Plant, turns: Seq<Turn>) -> Plant
    decreases turns.len(),
{
    if turns.len() == 0 {
        p
    } else {
        turns.last().leaves(after_turns(p, turns.drop_last()))
    }
}

/// The sensors of the latest step that succeeded since the last read, if there was one.
pub open spec fn unread(turns: Seq<Turn>) -> Option<Sensors>
    decreases turns.len(),
{
    if turns.len() == 0 {
        None
    } else {
        match turns.last() {
            Turn::Read { .. } => None,
            Turn::Step { targets: _, answer: Some((s, _)) } => Some(s),
            _ => unread(turns.drop_last()),
        }
    }
}

/// However the conversation went: a read after a step that succeeded hands over the sensors of
/// the latest such step and asks the plant nothing. Any other read, so every read directly
/// after a read, asks exactly once, and never for a step.
pub proof fn law_reads_ask_only_when_they_must(p: Plant, turns: Seq<Turn>, imu_ready: bool)
    requires
        p.pending is None,
    ensures
        ({
            let q = after_turns(p, turns);
            let read = Turn::Read { imu_ready };
            &&& q.pending == unread(turns)
            &&& unread(turns) is Some ==> read.asks(q).len() == 0
            &&& unread(turns) is None ==> read.asks(q) == seq![Request::Read]
            &&& read.leaves(q).pending is None
            &&& turns.len() > 0 && turns.last() is Read ==> unread(turns) is None
        }),
    decreases turns.len(),
{
    if turns.len() > 0 {
        law_reads_ask_only_when_they_must(p, turns.drop_last(), imu_ready);
    }
}

/// A step's sensors are the next read's, once: a second read has to ask the plant. The number
/// of the last request and the model stay as they are.
pub proof fn law_step_is_read_once(p: Plant, s: Sensors, imu_ready: bool)
    ensures
        p.kept(s, imu_ready).pending == Some(s),
        p.kept(s, imu_ready).taken().pending is None,
        p.kept(s, imu_ready).imu_ready == imu_ready,
        p.kept(s, imu_ready).taken().seq == p.seq,
        p.kept(s, imu_ready).taken().model == p.model,
{
}

} // verus!
