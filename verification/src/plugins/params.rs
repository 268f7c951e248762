//! The `key=value,key=value` parameter strings of the image plugins.
use vstd::prelude::*;
use crate::chars::{trim, split_on, trimmed, split_on_char};
use crate::strings::{push_str, string_from_chars};

verus! {

/// One comma-separated piece of a parameter string.
pub enum Setting {
    /// A piece with nothing but whitespace.
    Skip,
    /// A piece that is not one `key=value` pair, trimmed.
    BadFormat(Vec<char>),
    /// A key and its value, both trimmed.
    Pair(Vec<char>, Vec<char>),
}

/// A `Setting` as character sequences.
pub enum SettingModel {
    Skip,
    BadFormat(Seq<char>),
    Pair(Seq<char>, Seq<char>),
}

impl View for Setting {
    type V = SettingModel;

    open spec fn view(&self) -> SettingModel {
        match self {
            Setting::Skip => SettingModel::Skip,
            Setting::BadFormat(t) => SettingModel::BadFormat(t@),
            Setting::Pair(k, v) => SettingModel::Pair(k@, v@),
        }
    }
}

/// What a piece says: it is trimmed, skipped when empty, and otherwise
/// split at `=` into exactly two trimmed parts.
pub open spec fn setting_of(piece: Seq<char>) -> SettingModel {
    let t = trim(piece);
    if t.len() == 0 {
        SettingModel::Skip
    } else {
        let parts = split_on(t, '=');
        if parts.len() != 2 {
            SettingModel::BadFormat(t)
        } else {
            SettingModel::Pair(trim(parts[0]), trim(parts[1]))
        }
    }
}

/// Reads one piece of a parameter string.
pub fn read_setting(piece: &[char]) -> (r: Setting)
    ensures
        r@ == setting_of(piece@),
{
    let t = trimmed(piece);
    if t.len() == 0 {
        return Setting::Skip;
    }
    let parts = split_on_char(t.as_slice(), '=');
    if parts.len() != 2 {
        return Setting::BadFormat(t);
    }
    assert(parts@[0]@ == split_on(t@, '=')[0]);
    assert(parts@[1]@ == split_on(t@, '=')[1]);
    let key = trimmed(parts[0].as_slice());
    let value = trimmed(parts[1].as_slice());
    Setting::Pair(key, value)
}

/// The pieces of a parameter string, in order.
pub open spec fn pieces_of(s: Seq<char>) -> Seq<Seq<char>> {
    split_on(s, ',')
}

/// The message for a piece that is not a `key=value` pair.
pub open spec fn format_text(t: Seq<char>) -> Seq<char> {
    "Неверный формат [ключ]=[значение], строка '"@ + t + "'"@
}

/// The message for a value that does not parse.
pub open spec fn value_text(key: Seq<char>, value: Seq<char>) -> Seq<char> {
    "Неверное значение для пары '"@ + key + "': '"@ + value + "'"@
}

/// The message for a key the plugin does not know.
pub open spec fn unknown_text(key: Seq<char>) -> Seq<char> {
    "Неподдерживаемый параметр '"@ + key + "'"@
}

/// The message for a piece that is not a `key=value` pair.
pub fn format_message(t: &[char]) -> (r: String)
    ensures
        r@ == format_text(t@),
{
    let mut m = "Неверный формат [ключ]=[значение], строка '".to_owned();
    let ts = string_from_chars(t);
    push_str(&mut m, ts.as_str());
    push_str(&mut m, "'");
    m
}

/// The message for a value that does not parse.
pub fn value_message(key: &[char], value: &[char]) -> (r: String)
    ensures
        r@ == value_text(key@, value@),
{
    let mut m = "Неверное значение для пары '".to_owned();
    let ks = string_from_chars(key);
    let vs = string_from_chars(value);
    push_str(&mut m, ks.as_str());
    push_str(&mut m, "': '");
    push_str(&mut m, vs.as_str());
    push_str(&mut m, "'");
    m
}

/// The message for a key the plugin does not know.
pub fn unknown_message(key: &[char]) -> (r: String)
    ensures
        r@ == unknown_text(key@),
{
    let mut m = "Неподдерживаемый параметр '".to_owned();
    let ks = string_from_chars(key);
    push_str(&mut m, ks.as_str());
    push_str(&mut m, "'");
    m
}

/// The pieces that follow piece `i`, seen from the pieces from `i` on.
pub proof fn lemma_pieces_step(p: Seq<Seq<char>>, i: int)
    requires
        0 <= i < p.len(),
    ensures
        p.skip(i)[0] == p[i],
        p.skip(i).drop_first() == p.skip(i + 1),
{
    assert(p.skip(i).drop_first() =~= p.skip(i + 1));
}

/// Whether a piece sets the parameter `key`.
pub open spec fn sets_key(piece: Seq<char>, key: Seq<char>) -> bool {
    setting_of(piece) matches SettingModel::Pair(k, _) && k == key
}

/// The value a piece gives its parameter.
pub open spec fn setting_value(piece: Seq<char>) -> Seq<char> {
    match setting_of(piece) {
        SettingModel::Pair(_, v) => v,
        _ => Seq::empty(),
    }
}

/// Piece `i` is the last one that sets `key`.
pub open spec fn last_setting(pieces: Seq<Seq<char>>, key: Seq<char>, i: int) -> bool {
    &&& 0 <= i < pieces.len()
    &&& sets_key(pieces[i], key)
    &&& forall|j: int| i < j < pieces.len() ==> !sets_key(#[trigger] pieces[j], key)
}

/// No piece sets `key`.
pub open spec fn never_set(pieces: Seq<Seq<char>>, key: Seq<char>) -> bool {
    forall|j: int| 0 <= j < pieces.len() ==> !sets_key(#[trigger] pieces[j], key)
}

} // verus!
