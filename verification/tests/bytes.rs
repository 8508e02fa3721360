use hermes::bytes::{copy_bytes, rank_bytes, same_as_array, Rank};

#[test]
fn byte_strings_rank_in_dictionary_order() {
    assert_eq!(rank_bytes(&vec![], &vec![]), Rank::Same);
    assert_eq!(rank_bytes(&vec![], &vec![0]), Rank::Before);
    assert_eq!(rank_bytes(&vec![0], &vec![]), Rank::After);
    assert_eq!(rank_bytes(&vec![1, 2, 3], &vec![1, 2, 3]), Rank::Same);
    assert_eq!(rank_bytes(&vec![1, 2], &vec![1, 2, 0]), Rank::Before);
    assert_eq!(rank_bytes(&vec![1, 3], &vec![1, 2, 9]), Rank::After);
    assert_eq!(rank_bytes(&vec![0, 255], &vec![1]), Rank::Before);
    assert_eq!(rank_bytes(&vec![200], &vec![100, 100]), Rank::After);
}

#[test]
fn rank_agrees_with_the_order_of_vectors() {
    let samples: Vec<Vec<u8>> =
        vec![vec![], vec![0], vec![0, 0], vec![0, 1], vec![1], vec![1, 0], vec![255], vec![7, 7, 7]];
    for a in &samples {
        for b in &samples {
            let expected = if a < b {
                Rank::Before
            } else if a == b {
                Rank::Same
            } else {
                Rank::After
            };
            assert_eq!(rank_bytes(a, b), expected);
        }
    }
}

#[test]
fn vector_is_compared_with_array_byte_for_byte() {
    assert!(same_as_array(&vec![1, 2, 3], &[1u8, 2, 3]));
    assert!(!same_as_array(&vec![1, 2, 4], &[1u8, 2, 3]));
    assert!(!same_as_array(&vec![1, 2], &[1u8, 2, 3]));
    assert!(!same_as_array(&vec![1, 2, 3, 4], &[1u8, 2, 3]));
    assert!(same_as_array(&vec![], &[0u8; 0]));
}

#[test]
fn copy_holds_the_same_bytes() {
    assert_eq!(copy_bytes(&vec![9, 8, 7]), vec![9, 8, 7]);
    assert_eq!(copy_bytes(&vec![]), Vec::<u8>::new());
}
