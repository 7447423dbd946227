//! Player actions and their default key bindings.  The engine receives
//! opaque discrete commands; this module names them and fixes the default
//! keyboard layout.

use vstd::prelude::*;
use vstd::string::StringExecFns;

verus! {

/// A discrete command the player can issue.
#[derive(Clone, Copy, Debug, PartialEq, Eq, Structural)]
pub enum Action {
    NoAc,
    /// Insert the operator in slot `i` of the logic system; the keys stay
    /// the same whatever logic system is in use.
    InsertOperator(u32),
    InsertVariable(u32),
    InsertRule(u32),
    SpecialRuleMode,
    NextField,
    PreviousField,
    Undo,
    Redo,
    Restart,
    ToggleKeys,
    Exit,
    Up,
    Down,
    Right,
    Left,
    Confirm,
}

/// The keyboard keys the default layout uses.
#[derive(Clone, Copy, Debug, PartialEq, Eq, Structural)]
pub enum KeyCode {
    A,
    D,
    E,
    F,
    G,
    H,
    I,
    J,
    K,
    O,
    P,
    Q,
    R,
    S,
    T,
    U,
    W,
    X,
    Y,
    Z,
    F1,
    Up,
    Down,
    Left,
    Right,
    Return,
    Escape,
    Back,
    LShift,
}

/// A key binding table: each action paired with its key, looked up by
/// first match.
pub type Bindings = Vec<(Action, KeyCode)>;

/// The key bound to an action, scanning the table front to back.
pub open spec fn binding_from(bs: Seq<(Action, KeyCode)>, a: Action, i: int) -> Option<KeyCode>
    decreases bs.len() - i,
{
    if !(0 <= i < bs.len()) {
        Option::None
    } else if bs[i].0 == a {
        Option::Some(bs[i].1)
    } else {
        binding_from(bs, a, i + 1)
    }
}

pub open spec fn spec_binding_of(bs: Seq<(Action, KeyCode)>, a: Action) -> Option<KeyCode> {
    binding_from(bs, a, 0)
}

/// Look up the key bound to an action.
pub fn get_binding(bindings: &Bindings, action: Action) -> (r: Option<KeyCode>)
    ensures
        r == spec_binding_of(bindings@, action),
{
    let n = bindings.len();
    let mut i: usize = 0;
    while i < n
        invariant
            0 <= i <= n,
            n == bindings@.len(),
            binding_from(bindings@, action, 0) == binding_from(bindings@, action, i as int),
        decreases n - i,
    {
        if bindings[i].0 == action {
            return Option::Some(bindings[i].1);
        }
        i += 1;
    }
    Option::None
}

/// The default binding table, in its fixed order: operator slots, variable
/// slots, rule slots, then the fixed commands.
pub open spec fn default_bindings() -> Seq<(Action, KeyCode)> {
    seq![
        (Action::InsertOperator(0), KeyCode::Q),
        (Action::InsertOperator(1), KeyCode::S),
        (Action::InsertOperator(2), KeyCode::D),
        (Action::InsertOperator(3), KeyCode::F),
        (Action::InsertOperator(4), KeyCode::G),
        (Action::InsertOperator(5), KeyCode::H),
        (Action::InsertOperator(6), KeyCode::J),
        (Action::InsertOperator(7), KeyCode::K),
        (Action::InsertVariable(0), KeyCode::A),
        (Action::InsertVariable(1), KeyCode::Z),
        (Action::InsertVariable(2), KeyCode::E),
        (Action::InsertVariable(3), KeyCode::R),
        (Action::InsertVariable(4), KeyCode::T),
        (Action::InsertVariable(5), KeyCode::Y),
        (Action::InsertVariable(6), KeyCode::U),
        (Action::InsertVariable(7), KeyCode::I),
        (Action::InsertVariable(8), KeyCode::O),
        (Action::InsertVariable(9), KeyCode::P),
        (Action::InsertRule(0), KeyCode::A),
        (Action::InsertRule(1), KeyCode::Q),
        (Action::InsertRule(2), KeyCode::Z),
        (Action::InsertRule(3), KeyCode::S),
        (Action::InsertRule(4), KeyCode::E),
        (Action::InsertRule(5), KeyCode::D),
        (Action::InsertRule(6), KeyCode::R),
        (Action::InsertRule(7), KeyCode::F),
        (Action::InsertRule(8), KeyCode::T),
        (Action::InsertRule(9), KeyCode::G),
        (Action::InsertRule(10), KeyCode::Y),
        (Action::InsertRule(11), KeyCode::H),
        (Action::InsertRule(12), KeyCode::U),
        (Action::SpecialRuleMode, KeyCode::LShift),
        (Action::NextField, KeyCode::Right),
        (Action::PreviousField, KeyCode::Left),
        (Action::Undo, KeyCode::W),
        (Action::Redo, KeyCode::X),
        (Action::Restart, KeyCode::Back),
        (Action::ToggleKeys, KeyCode::F1),
        (Action::Exit, KeyCode::Escape),
        (Action::Up, KeyCode::Up),
        (Action::Down, KeyCode::Down),
        (Action::Right, KeyCode::Right),
        (Action::Left, KeyCode::Left),
        (Action::Confirm, KeyCode::Return),
    ]
}

/// The default key layout.
pub fn get_default_bindings() -> (res: Bindings)
    ensures
        res@ == default_bindings(),
{
    let mut res: Bindings = Vec::new();
    res.push((Action::InsertOperator(0), KeyCode::Q));
    res.push((Action::InsertOperator(1), KeyCode::S));
    res.push((Action::InsertOperator(2), KeyCode::D));
    res.push((Action::InsertOperator(3), KeyCode::F));
    res.push((Action::InsertOperator(4), KeyCode::G));
    res.push((Action::InsertOperator(5), KeyCode::H));
    res.push((Action::InsertOperator(6), KeyCode::J));
    res.push((Action::InsertOperator(7), KeyCode::K));
    res.push((Action::InsertVariable(0), KeyCode::A));
    res.push((Action::InsertVariable(1), KeyCode::Z));
    res.push((Action::InsertVariable(2), KeyCode::E));
    res.push((Action::InsertVariable(3), KeyCode::R));
    res.push((Action::InsertVariable(4), KeyCode::T));
    res.push((Action::InsertVariable(5), KeyCode::Y));
    res.push((Action::InsertVariable(6), KeyCode::U));
    res.push((Action::InsertVariable(7), KeyCode::I));
    res.push((Action::InsertVariable(8), KeyCode::O));
    res.push((Action::InsertVariable(9), KeyCode::P));
    res.push((Action::InsertRule(0), KeyCode::A));
    res.push((Action::InsertRule(1), KeyCode::Q));
    res.push((Action::InsertRule(2), KeyCode::Z));
    res.push((Action::InsertRule(3), KeyCode::S));
    res.push((Action::InsertRule(4), KeyCode::E));
    res.push((Action::InsertRule(5), KeyCode::D));
    res.push((Action::InsertRule(6), KeyCode::R));
    res.push((Action::InsertRule(7), KeyCode::F));
    res.push((Action::InsertRule(8), KeyCode::T));
    res.push((Action::InsertRule(9), KeyCode::G));
    res.push((Action::InsertRule(10), KeyCode::Y));
    res.push((Action::InsertRule(11), KeyCode::H));
    res.push((Action::InsertRule(12), KeyCode::U));
    res.push((Action::SpecialRuleMode, KeyCode::LShift));
    res.push((Action::NextField, KeyCode::Right));
    res.push((Action::PreviousField, KeyCode::Left));
    res.push((Action::Undo, KeyCode::W));
    res.push((Action::Redo, KeyCode::X));
    res.push((Action::Restart, KeyCode::Back));
    res.push((Action::ToggleKeys, KeyCode::F1));
    res.push((Action::Exit, KeyCode::Escape));
    res.push((Action::Up, KeyCode::Up));
    res.push((Action::Down, KeyCode::Down));
    res.push((Action::Right, KeyCode::Right));
    res.push((Action::Left, KeyCode::Left));
    res.push((Action::Confirm, KeyCode::Return));
    proof {
        assert(res@ =~= default_bindings());
    }
    res
}

/// The decimal digit character of `d`.
pub open spec fn digit_char(d: nat) -> char {
    if d == 0 {
        '0'
    } else if d == 1 {
        '1'
    } else if d == 2 {
        '2'
    } else if d == 3 {
        '3'
    } else if d == 4 {
        '4'
    } else if d == 5 {
        '5'
    } else if d == 6 {
        '6'
    } else if d == 7 {
        '7'
    } else if d == 8 {
        '8'
    } else {
        '9'
    }
}

/// Decimal notation of `n`, most significant digit first.
pub open spec fn dec_str(n: nat) -> Seq<char>
    decreases n,
{
    if n < 10 {
        seq![digit_char(n)]
    } else {
        dec_str(n / 10).push(digit_char(n % 10))
    }
}

fn digit_str(d: u32) -> (r: &'static str)
    requires
        d < 10,
    ensures
        r@ == seq![digit_char(d as nat)],
{
    proof {
        reveal_strlit("0");
        reveal_strlit("1");
        reveal_strlit("2");
        reveal_strlit("3");
        reveal_strlit("4");
        reveal_strlit("5");
        reveal_strlit("6");
        reveal_strlit("7");
        reveal_strlit("8");
        reveal_strlit("9");
    }
    let r = if d == 0 {
        "0"
    } else if d == 1 {
        "1"
    } else if d == 2 {
        "2"
    } else if d == 3 {
        "3"
    } else if d == 4 {
        "4"
    } else if d == 5 {
        "5"
    } else if d == 6 {
        "6"
    } else if d == 7 {
        "7"
    } else if d == 8 {
        "8"
    } else {
        "9"
    };
    proof {
        assert(r@ =~= seq![digit_char(d as nat)]);
    }
    r
}

/// Decimal notation of `n`.
pub fn u32_to_string(n: u32) -> (s: String)
    ensures
        s@ == dec_str(n as nat),
    decreases n,
{
    if n < 10 {
        digit_str(n).to_owned()
    } else {
        let mut s = u32_to_string(n / 10);
        s.append(digit_str(n % 10));
        proof {
            assert(s@ =~= dec_str(n as nat));
        }
        s
    }
}

/// The display name of each action, with the slot number written out for
/// the parametrised ones.
pub open spec fn spec_action_name(action: Action) -> Seq<char> {
    match action {
        Action::NoAc => "Nothing"@,
        Action::InsertOperator(i) => "Insert operator "@ + dec_str(i as nat),
        Action::InsertVariable(i) => "Insert variable "@ + dec_str(i as nat),
        Action::InsertRule(i) => "Use rule "@ + dec_str(i as nat),
        Action::SpecialRuleMode => "Use special rules"@,
        Action::NextField => "Next field"@,
        Action::PreviousField => "Previous field"@,
        Action::Undo => "Undo"@,
        Action::Redo => "Redo"@,
        Action::Restart => "Restart sequent"@,
        Action::ToggleKeys => "Toggle ingame UI"@,
        Action::Exit => "Menus Back/Exit"@,
        Action::Up => "Menus up"@,
        Action::Down => "Menus down"@,
        Action::Right => "Menus right"@,
        Action::Left => "Menus left"@,
        Action::Confirm => "Menus confirm"@,
    }
}

/// The display name of an action.
pub fn get_action_name(action: Action) -> (r: String)
    ensures
        r@ == spec_action_name(action),
{
    match action {
        Action::NoAc => "Nothing".to_owned(),
        Action::InsertOperator(i) => {
            let mut s = "Insert operator ".to_owned();
            s.append(u32_to_string(i).as_str());
            s
        },
        Action::InsertVariable(i) => {
            let mut s = "Insert variable ".to_owned();
            s.append(u32_to_string(i).as_str());
            s
        },
        Action::InsertRule(i) => {
            let mut s = "Use rule ".to_owned();
            s.append(u32_to_string(i).as_str());
            s
        },
        Action::SpecialRuleMode => "Use special rules".to_owned(),
        Action::NextField => "Next field".to_owned(),
        Action::PreviousField => "Previous field".to_owned(),
        Action::Undo => "Undo".to_owned(),
        Action::Redo => "Redo".to_owned(),
        Action::Restart => "Restart sequent".to_owned(),
        Action::ToggleKeys => "Toggle ingame UI".to_owned(),
        Action::Exit => "Menus Back/Exit".to_owned(),
        Action::Up => "Menus up".to_owned(),
        Action::Down => "Menus down".to_owned(),
        Action::Right => "Menus right".to_owned(),
        Action::Left => "Menus left".to_owned(),
        Action::Confirm => "Menus confirm".to_owned(),
    }
}

/// The display name of each key: its label, with the two keys whose label
/// is usually abbreviated written the way the keyboard shows them.
pub open spec fn spec_key_code_display(code: KeyCode) -> Seq<char> {
    match code {
        KeyCode::A => "A"@,
        KeyCode::D => "D"@,
        KeyCode::E => "E"@,
        KeyCode::F => "F"@,
        KeyCode::G => "G"@,
        KeyCode::H => "H"@,
        KeyCode::I => "I"@,
        KeyCode::J => "J"@,
        KeyCode::K => "K"@,
        KeyCode::O => "O"@,
        KeyCode::P => "P"@,
        KeyCode::Q => "Q"@,
        KeyCode::R => "R"@,
        KeyCode::S => "S"@,
        KeyCode::T => "T"@,
        KeyCode::U => "U"@,
        KeyCode::W => "W"@,
        KeyCode::X => "X"@,
        KeyCode::Y => "Y"@,
        KeyCode::Z => "Z"@,
        KeyCode::F1 => "F1"@,
        KeyCode::Up => "Up"@,
        KeyCode::Down => "Down"@,
        KeyCode::Left => "Left"@,
        KeyCode::Right => "Right"@,
        KeyCode::Return => "Return"@,
        KeyCode::Escape => "Esc"@,
        KeyCode::Back => "Backspace"@,
        KeyCode::LShift => "LShift"@,
    }
}

/// The display name of a key.
pub fn key_code_display(code: KeyCode) -> (r: String)
    ensures
        r@ == spec_key_code_display(code),
{
    match code {
        KeyCode::A => "A".to_owned(),
        KeyCode::D => "D".to_owned(),
        KeyCode::E => "E".to_owned(),
        KeyCode::F => "F".to_owned(),
        KeyCode::G => "G".to_owned(),
        KeyCode::H => "H".to_owned(),
        KeyCode::I => "I".to_owned(),
        KeyCode::J => "J".to_owned(),
        KeyCode::K => "K".to_owned(),
        KeyCode::O => "O".to_owned(),
        KeyCode::P => "P".to_owned(),
        KeyCode::Q => "Q".to_owned(),
        KeyCode::R => "R".to_owned(),
        KeyCode::S => "S".to_owned(),
        KeyCode::T => "T".to_owned(),
        KeyCode::U => "U".to_owned(),
        KeyCode::W => "W".to_owned(),
        KeyCode::X => "X".to_owned(),
        KeyCode::Y => "Y".to_owned(),
        KeyCode::Z => "Z".to_owned(),
        KeyCode::F1 => "F1".to_owned(),
        KeyCode::Up => "Up".to_owned(),
        KeyCode::Down => "Down".to_owned(),
        KeyCode::Left => "Left".to_owned(),
        KeyCode::Right => "Right".to_owned(),
        KeyCode::Return => "Return".to_owned(),
        KeyCode::Escape => "Esc".to_owned(),
        KeyCode::Back => "Backspace".to_owned(),
        KeyCode::LShift => "LShift".to_owned(),
    }
}

} // verus!
