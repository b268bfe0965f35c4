use cch_rooms::elves::{count_elves, ElfCounts};

#[test]
fn elves_and_shelves_are_counted() {
    let text = "The mischievous elf peeked out from behind the toy workshop, and another elf joined in the festive dance. Look, there is also an elf on that shelf!";
    assert_eq!(count_elves(text), ElfCounts { elf: 4, elf_on_a_shelf: 0, shelf_with_no_elf: 1 });
}

#[test]
fn overlapping_elves_on_shelves_are_counted() {
    assert_eq!(
        count_elves("elf on a shelf on a shelf"),
        ElfCounts { elf: 3, elf_on_a_shelf: 2, shelf_with_no_elf: 0 }
    );
    assert_eq!(
        count_elves("there is an elf on a shelf on an elf. there is also another shelf in Belfast."),
        ElfCounts { elf: 5, elf_on_a_shelf: 1, shelf_with_no_elf: 1 }
    );
}

#[test]
fn empty_text_has_no_elves() {
    assert_eq!(count_elves(""), ElfCounts { elf: 0, elf_on_a_shelf: 0, shelf_with_no_elf: 0 });
}
