//! The fragment that a read leaves behind.

use portmaster_kext::array_holder::ArrayHolder;

#[test]
fn clear_discards_saved_fragment() {
    let mut holder = ArrayHolder::default();
    holder.save(&[1, 2, 3]);

    holder.clear();

    assert!(holder.load().is_none());
}
