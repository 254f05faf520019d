use braind::plant::{slow_as, slow_from, Frame, Heard, Plant, PlantError, Reading, Request, Sensors, NUM_JOINTS};
use serde_json::Value;

fn bits(v: &Value) -> u64 {
    v.as_f64().unwrap().to_bits()
}

fn list<const N: usize>(v: &Value) -> [u64; N] {
    let all: Vec<u64> = v.as_array().unwrap().iter().map(bits).collect();
    all.try_into().unwrap()
}

fn numbers(v: &[f64]) -> Value {
    Value::Array(v.iter().map(|x| Value::from(*x)).collect())
}

/// A plant made of arithmetic: echoes targets as positions, counts frames for
/// `imu_ready`, refuses a bad op. Enough to pin the wire, not the physics.
struct FakePlant {
    pos: Vec<f64>,
    frames: u64,
    seen: Vec<String>,
}

impl FakePlant {
    fn answer(&mut self, line: &str) -> String {
        assert!(line.ends_with('\n'));
        let req: Value = serde_json::from_str(line).unwrap();
        let op = req["op"].as_str().unwrap().to_owned();
        self.seen.push(op.clone());
        let mut reply = serde_json::Map::new();
        reply.insert("ok".into(), Value::from(true));
        match op.as_str() {
            "hello" => {
                assert_eq!(req["version"], 1);
                reply.insert("version".into(), Value::from(1));
                reply.insert("model".into(), Value::from("walk"));
            }
            "read" | "step" => {
                if op == "step" {
                    self.pos = req["targets"]
                        .as_array()
                        .unwrap()
                        .iter()
                        .map(|v| v.as_f64().unwrap())
                        .collect();
                    self.frames += 1;
                }
                reply.insert("t".into(), Value::from(self.frames as f64 * 0.02));
                reply.insert("pos".into(), numbers(&self.pos));
                reply.insert("vel".into(), numbers(&[0.0; NUM_JOINTS]));
                reply.insert("gyro".into(), numbers(&[0.0; 3]));
                reply.insert("gravity".into(), numbers(&[0.0, 0.0, -1.0]));
                reply.insert("quat".into(), numbers(&[1.0, 0.0, 0.0, 0.0]));
                reply.insert("imu_ready".into(), Value::from(self.frames >= 25));
            }
            "gain" => assert_eq!(req["kp"], 50),
            "torque" => assert_eq!(req["on"], false),
            "slow" => {
                reply.insert("volts".into(), Value::from(7.4));
                reply.insert("temps_c".into(), numbers(&[32.0; NUM_JOINTS]));
            }
            _ => {
                reply.insert("ok".into(), Value::from(false));
                reply.insert("error".into(), Value::from("unknown op"));
            }
        }
        reply.insert("seq".into(), req["seq"].clone());
        format!("{}\n", Value::Object(reply))
    }
}

fn call(io: &mut Plant, plant: &mut FakePlant, request: Request) -> String {
    let line = io.ask(&request);
    let reply = plant.answer(&line);
    assert!(matches!(io.hear(&reply), Heard::Answered), "{reply}");
    reply
}

fn frame(reply: &str) -> Frame {
    let v: Value = serde_json::from_str(reply).unwrap();
    Frame {
        pos: v["pos"].as_array().unwrap().iter().map(bits).collect(),
        vel: v["vel"].as_array().unwrap().iter().map(bits).collect(),
        gyro: list(&v["gyro"]),
        gravity: list(&v["gravity"]),
        quat: list(&v["quat"]),
        imu_ready: v["imu_ready"].as_bool().unwrap_or(false),
    }
}

fn read(io: &mut Plant, plant: &mut FakePlant) -> Sensors {
    match io.begin_read() {
        Reading::Kept(s) => s,
        Reading::Ask(line) => {
            let reply = plant.answer(&line);
            assert!(matches!(io.hear(&reply), Heard::Answered), "{reply}");
            io.sensors_from(&frame(&reply)).unwrap()
        }
    }
}

fn write(io: &mut Plant, plant: &mut FakePlant, targets: &[f64; NUM_JOINTS]) {
    let targets = serde_json::to_string(&targets[..]).unwrap();
    let reply = call(io, plant, Request::Step { targets });
    io.stepped(&frame(&reply)).unwrap();
}

#[test]
fn read_before_write_asks_the_plant_and_reads_after_write_do_not() {
    let mut plant = FakePlant {
        pos: vec![0.0; NUM_JOINTS],
        frames: 0,
        seen: Vec::new(),
    };
    let mut io = Plant::new();
    let hello = call(&mut io, &mut plant, Request::Hello);
    io.meet(&hello).unwrap();
    assert_eq!(io.model, "walk");

    let first = read(&mut io, &mut plant);
    assert_eq!(first.positions, [0.0f64.to_bits(); NUM_JOINTS]);
    assert!(!io.imu_ready);

    let targets: [f64; NUM_JOINTS] = [
        0.0, 0.05, 0.6, -1.2, 0.6, 0.3, -0.3, 0.0, 0.0, 0.1, 0.0, -0.05, -0.6, 1.2, -0.6,
    ];
    write(&mut io, &mut plant, &targets);
    let after = read(&mut io, &mut plant);
    assert_eq!(
        after.positions,
        targets.map(f64::to_bits),
        "a step's frame is the next read"
    );
    assert_eq!(after.gravity, [0.0, 0.0, -1.0f64].map(f64::to_bits));

    for _ in 0..30 {
        write(&mut io, &mut plant, &targets);
        read(&mut io, &mut plant);
    }
    assert!(io.imu_ready, "the plant's readiness reaches the trait");

    let reply = call(&mut io, &mut plant, Request::Slow);
    let slow = slow_from(&reply).unwrap();
    assert_eq!(slow.volts, 7.4f64.to_bits());
    assert_eq!(slow.temps_c, [32.0f64.to_bits(); NUM_JOINTS]);
    call(&mut io, &mut plant, Request::Gain { kp: 50 });
    call(&mut io, &mut plant, Request::Torque { on: false });

    let seen = plant.seen;
    assert_eq!(seen[..3], ["hello", "read", "step"], "{seen:?}");
    assert_eq!(
        seen.iter().filter(|op| *op == "read").count(),
        1,
        "only the first read hit the wire"
    );
}

#[test]
fn requests_are_numbered_lines() {
    let mut io = Plant::new();
    assert_eq!(
        io.ask(&Request::Hello),
        "{\"op\":\"hello\",\"seq\":1,\"version\":1}\n"
    );
    assert_eq!(io.ask(&Request::Read), "{\"op\":\"read\",\"seq\":2}\n");
    assert_eq!(
        io.ask(&Request::Torque { on: true }),
        "{\"on\":true,\"op\":\"torque\",\"seq\":3}\n"
    );
    assert_eq!(
        io.ask(&Request::Gain { kp: 200 }),
        "{\"kp\":200,\"op\":\"gain\",\"seq\":4}\n"
    );
    assert_eq!(
        io.ask(&Request::Step {
            targets: "[0.5]".into()
        }),
        "{\"op\":\"step\",\"seq\":5,\"targets\":[0.5]}\n"
    );
}

fn refusal(h: Heard) -> String {
    match h {
        Heard::Refused(PlantError::Bus(why)) => why,
        other => panic!("{other:?}"),
    }
}

#[test]
fn late_bad_and_unwilling_replies_are_told_apart() {
    let mut io = Plant::new();
    io.seq = 10;
    assert!(matches!(io.hear("{\"ok\":true,\"seq\":9}"), Heard::Late));
    assert!(matches!(io.hear("{\"ok\":true,\"seq\":10}"), Heard::Answered));
    assert!(matches!(io.hear("{\"ok\":true}"), Heard::Answered), "no number at all");
    assert_eq!(
        refusal(io.hear("{\"ok\":false,\"error\":\"unknown op\",\"seq\":10}")),
        "unknown op"
    );
    assert_eq!(refusal(io.hear("{\"ok\":1,\"seq\":10}")), "plant said no");
    assert_eq!(refusal(io.hear("[]")), "plant said no");
    let garbled = refusal(io.hear("{\"ok\":"));
    assert_eq!(
        garbled,
        format!(
            "plant reply: {}",
            serde_json::from_str::<Value>("{\"ok\":").unwrap_err()
        )
    );
    assert!(matches!(
        io.judge(None, Some(3), Some(true), None),
        Heard::Late
    ));
}

#[test]
fn versions_must_agree() {
    let mut io = Plant::new();
    match io.meet("{\"ok\":true,\"version\":2,\"model\":\"ball\"}") {
        Err(PlantError::Bus(why)) => {
            assert_eq!(why, "plant speaks protocol 2, this robotd speaks 1")
        }
        other => panic!("{other:?}"),
    }
    match io.meet("{\"ok\":true}") {
        Err(PlantError::Bus(why)) => {
            assert_eq!(why, "plant speaks protocol 0, this robotd speaks 1")
        }
        other => panic!("{other:?}"),
    }
    assert_eq!(io.model, "");
    io.meet("{\"version\":1}").unwrap();
    assert_eq!(io.model, "?");
}

#[test]
fn frames_must_be_whole() {
    let mut io = Plant::new();
    let mut f = Frame {
        pos: vec![0; NUM_JOINTS],
        vel: vec![0; NUM_JOINTS - 1],
        gyro: [0; 3],
        gravity: [0; 3],
        quat: [0; 4],
        imu_ready: true,
    };
    match io.stepped(&f) {
        Err(PlantError::ShortRead { expected, got }) => {
            assert_eq!((expected, got), (NUM_JOINTS, NUM_JOINTS - 1))
        }
        other => panic!("{other:?}"),
    }
    assert!(!io.imu_ready && io.pending.is_none());
    f.vel.push(7);
    io.stepped(&f).unwrap();
    assert!(io.imu_ready);
    assert_eq!(io.take_pending().unwrap().velocities[NUM_JOINTS - 1], 7);
    assert!(io.take_pending().is_none(), "once");
}

#[test]
fn slow_sensors_need_a_voltage() {
    match slow_from("{\"ok\":true,\"temps_c\":[1.0]}") {
        Err(PlantError::Bus(why)) => assert_eq!(why, "plant slow: no volts"),
        other => panic!("{other:?}"),
    }
    let slow = slow_from("{\"volts\":7,\"temps_c\":[30.5,\"hot\",31]}").unwrap();
    assert_eq!(slow.volts, 7.0f64.to_bits());
    assert_eq!(slow.temps_c[..4], [30.5f64, 0.0, 31.0, 0.0].map(f64::to_bits));
    let many = slow_as(Some(1), Some(vec![Some(2); 40])).unwrap();
    assert_eq!(many.temps_c, [2; NUM_JOINTS]);
}
