//! Tests of the character-to-index mapping used by the bigram examples.

use micrograd::{char_to_index, index_to_char};

#[test]
fn dot_is_zero_and_letters_are_one_based() {
    assert_eq!(char_to_index('.'), 0);
    assert_eq!(char_to_index('a'), 1);
    assert_eq!(char_to_index('m'), 13);
    assert_eq!(char_to_index('z'), 26);
}

#[test]
fn index_to_char_inverts_char_to_index() {
    assert_eq!(index_to_char(0), '.');
    assert_eq!(index_to_char(1), 'a');
    assert_eq!(index_to_char(26), 'z');
    for i in 0..=26usize {
        assert_eq!(char_to_index(index_to_char(i)), i);
    }
}
