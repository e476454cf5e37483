//! The read-only catalog records the peer reports, and the small value
//! enums that method parameters and returns are drawn from. Strings are
//! held as their UTF-8 wire bytes.

use vstd::prelude::*;

use crate::id::DeviceId;

verus! {

/// Information about an imported file: its name and its size in bytes.
#[derive(Debug)]
pub struct ImportFileInfo {
    /// The file's name.
    pub name: Vec<u8>,
    /// The file's size in bytes.
    pub size: u64,
}

/// A description of a device or interface block, as the `list` reply
/// carries it.
#[derive(Debug)]
pub struct DeviceDescriptor {
    /// The device's identifier.
    pub device_id: DeviceId,
    /// The capability names that say what kind of device this is.
    pub type_names: Vec<Vec<u8>>,
}

/// The mathematical value of a device descriptor.
pub struct DescView {
    pub device_id: Seq<u8>,
    pub type_names: Seq<Seq<u8>>,
}

impl DeepView for DeviceDescriptor {
    type V = DescView;

    open spec fn deep_view(&self) -> DescView {
        DescView { device_id: self.device_id@, type_names: self.type_names.deep_view() }
    }
}

/// A description of one parameter of a method.
#[derive(Debug)]
pub struct ParameterDescriptor {
    /// The parameter's name.
    pub name: Vec<u8>,
    /// What the parameter is used for.
    pub description: Vec<u8>,
    /// The parameter's type.
    pub ty: Vec<u8>,
}

/// The mathematical value of a parameter descriptor.
pub struct ParamDescView {
    pub name: Seq<u8>,
    pub description: Seq<u8>,
    pub ty: Seq<u8>,
}

impl DeepView for ParameterDescriptor {
    type V = ParamDescView;

    open spec fn deep_view(&self) -> ParamDescView {
        ParamDescView { name: self.name@, description: self.description@, ty: self.ty@ }
    }
}

/// An RPC method's signature and description, as the `methods` reply
/// carries it.
#[derive(Debug)]
pub struct MethodDescriptor {
    /// The method's name.
    pub name: Vec<u8>,
    /// The method's return type.
    pub return_type: Vec<u8>,
    /// What the method does.
    pub description: Vec<u8>,
    /// The method's parameters, in order.
    pub parameters: Vec<ParameterDescriptor>,
}

/// The mathematical value of a method descriptor.
pub struct MethodDescView {
    pub name: Seq<u8>,
    pub return_type: Seq<u8>,
    pub description: Seq<u8>,
    pub parameters: Seq<ParamDescView>,
}

impl DeepView for MethodDescriptor {
    type V = MethodDescView;

    open spec fn deep_view(&self) -> MethodDescView {
        MethodDescView {
            name: self.name@,
            return_type: self.return_type@,
            description: self.description@,
            parameters: self.parameters.deep_view(),
        }
    }
}

/// A block's relative direction, as method parameters name it.
#[derive(Copy, Clone, PartialEq, Eq, Structural, Debug)]
pub enum Direction {
    Up,
    Down,
    Front,
    Back,
    Left,
    Right,
}

/// The direction's wire form: a lower-case JSON string.
pub open spec fn spec_direction_json(d: Direction) -> Seq<u8> {
    match d {
        Direction::Up => seq!['"' as u8, 'u' as u8, 'p' as u8, '"' as u8],
        Direction::Down => seq!['"' as u8, 'd' as u8, 'o' as u8, 'w' as u8, 'n' as u8, '"' as u8],
        Direction::Front => seq![
            '"' as u8,
            'f' as u8,
            'r' as u8,
            'o' as u8,
            'n' as u8,
            't' as u8,
            '"' as u8,
        ],
        Direction::Back => seq!['"' as u8, 'b' as u8, 'a' as u8, 'c' as u8, 'k' as u8, '"' as u8],
        Direction::Left => seq!['"' as u8, 'l' as u8, 'e' as u8, 'f' as u8, 't' as u8, '"' as u8],
        Direction::Right => seq![
            '"' as u8,
            'r' as u8,
            'i' as u8,
            'g' as u8,
            'h' as u8,
            't' as u8,
            '"' as u8,
        ],
    }
}

impl Direction {
    /// The direction as a pre-serialized JSON parameter.
    pub fn as_json(&self) -> (r: Vec<u8>)
        ensures
            r@ == spec_direction_json(*self),
    {
        let mut v: Vec<u8> = Vec::new();
        v.push('"' as u8);
        match self {
            Direction::Up => {
                v.push('u' as u8);
                v.push('p' as u8);
            },
            Direction::Down => {
                v.push('d' as u8);
                v.push('o' as u8);
                v.push('w' as u8);
                v.push('n' as u8);
            },
            Direction::Front => {
                v.push('f' as u8);
                v.push('r' as u8);
                v.push('o' as u8);
                v.push('n' as u8);
                v.push('t' as u8);
            },
            Direction::Back => {
                v.push('b' as u8);
                v.push('a' as u8);
                v.push('c' as u8);
                v.push('k' as u8);
            },
            Direction::Left => {
                v.push('l' as u8);
                v.push('e' as u8);
                v.push('f' as u8);
                v.push('t' as u8);
            },
            Direction::Right => {
                v.push('r' as u8);
                v.push('i' as u8);
                v.push('g' as u8);
                v.push('h' as u8);
                v.push('t' as u8);
            },
        }
        v.push('"' as u8);
        proof {
            assert(v@ =~= spec_direction_json(*self));
        }
        v
    }
}

/// A rotation direction.
#[derive(Copy, Clone, PartialEq, Eq, Structural, Debug)]
pub enum RotationDirection {
    Left,
    Right,
}

/// The rotation direction's wire form: a lower-case JSON string.
pub open spec fn spec_rotation_json(d: RotationDirection) -> Seq<u8> {
    match d {
        RotationDirection::Left => seq![
            '"' as u8,
            'l' as u8,
            'e' as u8,
            'f' as u8,
            't' as u8,
            '"' as u8,
        ],
        RotationDirection::Right => seq![
            '"' as u8,
            'r' as u8,
            'i' as u8,
            'g' as u8,
            'h' as u8,
            't' as u8,
            '"' as u8,
        ],
    }
}

impl RotationDirection {
    /// The rotation direction as a pre-serialized JSON parameter.
    pub fn as_json(&self) -> (r: Vec<u8>)
        ensures
            r@ == spec_rotation_json(*self),
    {
        let mut v: Vec<u8> = Vec::new();
        v.push('"' as u8);
        match self {
            RotationDirection::Left => {
                v.push('l' as u8);
                v.push('e' as u8);
                v.push('f' as u8);
                v.push('t' as u8);
            },
            RotationDirection::Right => {
                v.push('r' as u8);
                v.push('i' as u8);
                v.push('g' as u8);
                v.push('h' as u8);
                v.push('t' as u8);
            },
        }
        v.push('"' as u8);
        proof {
            assert(v@ =~= spec_rotation_json(*self));
        }
        v
    }
}

/// The state of a robot's current action. On the wire the states are
/// upper-case JSON strings.
#[derive(Copy, Clone, PartialEq, Eq, Structural, Debug)]
pub enum RobotActionResult {
    Incomplete,
    Success,
    Failure,
}

impl RobotActionResult {
    /// Reads a robot action state off its wire bytes (the quoted,
    /// upper-case JSON string).
    pub fn from_json(b: &Vec<u8>) -> (r: Option<RobotActionResult>)
        ensures
            match r {
                Some(v) => match v {
                    RobotActionResult::Incomplete => b@ == incomplete_json(),
                    RobotActionResult::Success => b@ == success_json(),
                    RobotActionResult::Failure => b@ == failure_json(),
                },
                None => b@ != incomplete_json() && b@ != success_json() && b@ != failure_json(),
            },
    {
        let mut inc: Vec<u8> = Vec::new();
        inc.push('"' as u8);
        inc.push('I' as u8);
        inc.push('N' as u8);
        inc.push('C' as u8);
        inc.push('O' as u8);
        inc.push('M' as u8);
        inc.push('P' as u8);
        inc.push('L' as u8);
        inc.push('E' as u8);
        inc.push('T' as u8);
        inc.push('E' as u8);
        inc.push('"' as u8);
        proof {
            assert(inc@ =~= incomplete_json());
        }
        if crate::response::eq_bytes(b, &inc) {
            return Some(RobotActionResult::Incomplete);
        }
        let mut suc: Vec<u8> = Vec::new();
        suc.push('"' as u8);
        suc.push('S' as u8);
        suc.push('U' as u8);
        suc.push('C' as u8);
        suc.push('C' as u8);
        suc.push('E' as u8);
        suc.push('S' as u8);
        suc.push('S' as u8);
        suc.push('"' as u8);
        proof {
            assert(suc@ =~= success_json());
        }
        if crate::response::eq_bytes(b, &suc) {
            return Some(RobotActionResult::Success);
        }
        let mut fai: Vec<u8> = Vec::new();
        fai.push('"' as u8);
        fai.push('F' as u8);
        fai.push('A' as u8);
        fai.push('I' as u8);
        fai.push('L' as u8);
        fai.push('U' as u8);
        fai.push('R' as u8);
        fai.push('E' as u8);
        fai.push('"' as u8);
        proof {
            assert(fai@ =~= failure_json());
        }
        if crate::response::eq_bytes(b, &fai) {
            return Some(RobotActionResult::Failure);
        }
        None
    }
}

/// `"INCOMPLETE"` — the wire form of an unfinished action.
pub open spec fn incomplete_json() -> Seq<u8> {
    seq![
        '"' as u8,
        'I' as u8,
        'N' as u8,
        'C' as u8,
        'O' as u8,
        'M' as u8,
        'P' as u8,
        'L' as u8,
        'E' as u8,
        'T' as u8,
        'E' as u8,
        '"' as u8,
    ]
}

/// `"SUCCESS"` — the wire form of a finished action.
pub open spec fn success_json() -> Seq<u8> {
    seq![
        '"' as u8,
        'S' as u8,
        'U' as u8,
        'C' as u8,
        'C' as u8,
        'E' as u8,
        'S' as u8,
        'S' as u8,
        '"' as u8,
    ]
}

/// `"FAILURE"` — the wire form of a failed action.
pub open spec fn failure_json() -> Seq<u8> {
    seq![
        '"' as u8,
        'F' as u8,
        'A' as u8,
        'I' as u8,
        'L' as u8,
        'U' as u8,
        'R' as u8,
        'E' as u8,
        '"' as u8,
    ]
}

} // verus!
