use vstd::prelude::*;

use crate::text::{chars_of, string_from_chars};

verus! {

// Typing the player's name on the menu: from the keyboard, one key press
// at a time, or from an on-screen keyboard that hands over what was typed.

/// A name may grow while it takes fewer bytes than this.
pub const MAX_NAME_BYTES: u32 = 20;

/// The bytes a character takes in UTF-8.
pub open spec fn char_utf8_len(c: char) -> nat {
    if (c as u32) < 0x80 {
        1
    } else if (c as u32) < 0x800 {
        2
    } else if (c as u32) < 0x10000 {
        3
    } else {
        4
    }
}

/// The bytes a text takes in UTF-8.
pub open spec fn utf8_len(s: Seq<char>) -> nat
    decreases s.len(),
{
    if s.len() == 0 {
        0
    } else {
        utf8_len(s.drop_last()) + char_utf8_len(s.last())
    }
}

/// Whether a character is alphabetic or numeric, as Unicode says.
pub uninterp spec fn alphanumeric(c: char) -> bool;

/// `char::is_alphanumeric`; the contract names its result.
#[verifier::external_body]
fn is_alphanumeric(c: char) -> (r: bool)
    ensures
        r == alphanumeric(c),
{
    c.is_alphanumeric()
}

pub proof fn lemma_utf8_len_prefix(s: Seq<char>, i: int)
    requires
        0 <= i <= s.len(),
    ensures
        utf8_len(s.take(i)) <= utf8_len(s),
    decreases s.len() - i,
{
    if i < s.len() {
        lemma_utf8_len_prefix(s, i + 1);
        assert(s.take(i + 1).drop_last() =~= s.take(i));
    } else {
        assert(s.take(i) =~= s);
    }
}

/// Whether the name still has room for another character.
fn has_room(name: &Vec<char>) -> (r: bool)
    ensures
        r == (utf8_len(name@) < MAX_NAME_BYTES),
{
    let mut bytes: u32 = 0;
    let mut i: usize = 0;
    assert(name@.take(0) =~= Seq::<char>::empty());
    while i < name.len()
        invariant
            i <= name@.len(),
            bytes == utf8_len(name@.take(i as int)),
            bytes < MAX_NAME_BYTES,
        decreases name@.len() - i,
    {
        let c = name[i];
        let code = c as u32;
        let w: u32 = if code < 0x80 {
            1
        } else if code < 0x800 {
            2
        } else if code < 0x10000 {
            3
        } else {
            4
        };
        assert(name@.take(i + 1).drop_last() =~= name@.take(i as int));
        bytes = bytes + w;
        i = i + 1;
        if bytes >= MAX_NAME_BYTES {
            proof {
                lemma_utf8_len_prefix(name@, i as int);
            }
            return false;
        }
    }
    assert(name@.take(i as int) =~= name@);
    true
}

/// The name after `c` is typed: added when there is room.
pub open spec fn with_char(name: Seq<char>, c: char) -> Seq<char> {
    if utf8_len(name) < MAX_NAME_BYTES {
        name.push(c)
    } else {
        name
    }
}

/// The name after a backspace: its last character gone, if any.
pub open spec fn backspaced(name: Seq<char>) -> Seq<char> {
    if name.len() == 0 {
        name
    } else {
        name.drop_last()
    }
}

/// The name after the keys pressed in one frame, in order, and whether any
/// of them landed.
pub open spec fn keys_typed(name: Seq<char>, keys: Seq<char>) -> (Seq<char>, bool)
    decreases keys.len(),
{
    if keys.len() == 0 {
        (name, false)
    } else {
        let (before, changed) = keys_typed(name, keys.drop_last());
        if utf8_len(before) < MAX_NAME_BYTES {
            (before.push(keys.last()), true)
        } else {
            (before, changed)
        }
    }
}

/// The characters the on-screen keyboard may add: letters and digits, a
/// space and a hyphen.
pub open spec fn allowed_char(c: char) -> bool {
    alphanumeric(c) || c == ' ' || c == '-'
}

/// The name after the on-screen keyboard's characters, in order (a
/// backspace, `'\x08'`, removes the last character), and whether anything
/// changed hands.
pub open spec fn soft_keys_typed(name: Seq<char>, keys: Seq<char>) -> (Seq<char>, bool)
    decreases keys.len(),
{
    if keys.len() == 0 {
        (name, false)
    } else {
        let (before, changed) = soft_keys_typed(name, keys.drop_last());
        let c = keys.last();
        if c == '\x08' {
            (backspaced(before), true)
        } else if allowed_char(c) && utf8_len(before) < MAX_NAME_BYTES {
            (before.push(c), true)
        } else {
            (before, changed)
        }
    }
}

/// Applies the key presses of one frame: the keys' characters, then a
/// backspace when it was pressed. Gives back the new name and whether the
/// display needs redrawing.
pub fn type_keys(name: &str, keys: &Vec<char>, backspace: bool) -> (r: (String, bool))
    ensures
        r.0@ == if backspace {
            backspaced(keys_typed(name@, keys@).0)
        } else {
            keys_typed(name@, keys@).0
        },
        r.1 == (backspace || keys_typed(name@, keys@).1),
{
    let mut v = chars_of(name);
    let mut changed = false;
    let mut i: usize = 0;
    assert(keys@.take(0) =~= Seq::<char>::empty());
    while i < keys.len()
        invariant
            i <= keys@.len(),
            (v@, changed) == keys_typed(name@, keys@.take(i as int)),
        decreases keys@.len() - i,
    {
        assert(keys@.take(i + 1).drop_last() =~= keys@.take(i as int));
        if has_room(&v) {
            v.push(keys[i]);
            changed = true;
        }
        i = i + 1;
    }
    assert(keys@.take(i as int) =~= keys@);
    if backspace {
        v.pop();
        changed = true;
    }
    (string_from_chars(&v), changed)
}

/// Applies what the on-screen keyboard typed. Gives back the new name and
/// whether the display needs redrawing.
pub fn type_soft_keys(name: &str, keys: &Vec<char>) -> (r: (String, bool))
    ensures
        (r.0@, r.1) == soft_keys_typed(name@, keys@),
{
    let mut v = chars_of(name);
    let mut changed = false;
    let mut i: usize = 0;
    assert(keys@.take(0) =~= Seq::<char>::empty());
    while i < keys.len()
        invariant
            i <= keys@.len(),
            (v@, changed) == soft_keys_typed(name@, keys@.take(i as int)),
        decreases keys@.len() - i,
    {
        assert(keys@.take(i + 1).drop_last() =~= keys@.take(i as int));
        let c = keys[i];
        if c == '\x08' {
            v.pop();
            changed = true;
        } else if (is_alphanumeric(c) || c == ' ' || c == '-') && has_room(&v) {
            v.push(c);
            changed = true;
        }
        i = i + 1;
    }
    assert(keys@.take(i as int) =~= keys@);
    (string_from_chars(&v), changed)
}

/// The name as the menu shows it while typing: followed by a cursor, or
/// the cursor alone.
pub fn name_display(name: &str) -> (r: String)
    ensures
        r@ == name@ + seq!['_'],
{
    let mut v = chars_of(name);
    v.push('_');
    string_from_chars(&v)
}

/// Once a name takes its full twenty bytes, no key adds to it.
pub proof fn lemma_full_name_stays(name: Seq<char>, keys: Seq<char>)
    requires
        utf8_len(name) >= MAX_NAME_BYTES,
    ensures
        keys_typed(name, keys).0 == name,
    decreases keys.len(),
{
    if keys.len() > 0 {
        lemma_full_name_stays(name, keys.drop_last());
    }
}

/// Typing never takes a name past the last character that fit: at most
/// twenty bytes plus one character.
pub proof fn lemma_typed_name_bound(name: Seq<char>, keys: Seq<char>)
    requires
        utf8_len(name) < MAX_NAME_BYTES + 4,
    ensures
        utf8_len(keys_typed(name, keys).0) < MAX_NAME_BYTES + 4,
    decreases keys.len(),
{
    if keys.len() > 0 {
        lemma_typed_name_bound(name, keys.drop_last());
        let before = keys_typed(name, keys.drop_last()).0;
        if utf8_len(before) < MAX_NAME_BYTES {
            assert(before.push(keys.last()).drop_last() =~= before);
        }
    }
}

} // verus!
