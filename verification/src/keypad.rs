//! The host keyboard layout of the 16-key CHIP-8 keypad.

use vstd::prelude::*;

verus! {

/// The host keys, named by their label on a US QWERTY keyboard, of the
/// keypad keys 0 to F in order:
///
/// ```text
///   1 2 3 4        1 2 3 C
///   q w e r   ->   4 5 6 D
///   a s d f        7 8 9 E
///   z x c v        A 0 B F
/// ```
pub const KEY_LAYOUT: [char; 16] = [
    'x', '1', '2', '3', 'q', 'w', 'e', 'a', 's', 'd', 'z', 'c', '4', 'r', 'f', 'v',
];

/// The keypad key that host key `label` stands for.
pub open spec fn keypad_key(label: char) -> Option<usize> {
    if KEY_LAYOUT@.contains(label) {
        Some(choose|i: usize| i < 16 && KEY_LAYOUT@[i as int] == label)
    } else {
        None
    }
}

/// The keypad key (0 to 15) that host key `label` stands for, if any.
pub fn chip8_key(label: char) -> (key: Option<usize>)
    ensures
        key == keypad_key(label),
        match key {
            Some(i) => i < 16 && KEY_LAYOUT@[i as int] == label,
            None => !KEY_LAYOUT@.contains(label),
        },
{
    let mut i: usize = 0;
    while i < 16
        invariant
            i <= 16,
            forall|j: int| 0 <= j < i ==> KEY_LAYOUT@[j] != label,
        decreases 16 - i,
    {
        if KEY_LAYOUT[i] == label {
            proof {
                lemma_layout_one_to_one();
            }
            return Some(i);
        }
        i = i + 1;
    }
    assert forall|j: int| 0 <= j < KEY_LAYOUT@.len() implies KEY_LAYOUT@[j] != label by {}
    None
}

/// No two keypad keys share a host key, so every keypad key has exactly one
/// host key and `chip8_key` finds it.
pub proof fn lemma_layout_one_to_one()
    ensures
        KEY_LAYOUT@.len() == 16,
        forall|i: int, j: int|
            0 <= i < 16 && 0 <= j < 16 && i != j ==> KEY_LAYOUT@[i] != KEY_LAYOUT@[j],
        forall|i: usize| i < 16 ==> #[trigger] keypad_key(KEY_LAYOUT@[i as int]) == Some(i),
{
    assert(KEY_LAYOUT@ =~= seq![
        'x', '1', '2', '3', 'q', 'w', 'e', 'a', 's', 'd', 'z', 'c', '4', 'r', 'f', 'v',
    ]);
    assert forall|i: usize| i < 16 implies #[trigger] keypad_key(KEY_LAYOUT@[i as int]) == Some(
        i,
    ) by {
        assert(KEY_LAYOUT@.contains(KEY_LAYOUT@[i as int]));
    }
}

} // verus!
