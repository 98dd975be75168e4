use rltk::metrics::distance;
use rltk::metrics::edit_distance;

#[test]
fn mod_test_get_levenshtein_distance() {
    assert_eq!(edit_distance("intention", "execution"), 8);
}

#[test]
fn mod_test_get_edit_distance_table() {
    let word1 = "intention";
    let word2 = "execution";

    let outcome: [[usize; 10]; 10] = [
        [0, 1, 2, 3, 4, 5, 6, 7, 8, 9],
        [1, 2, 3, 4, 5, 6, 7, 6, 7, 8],
        [2, 3, 4, 5, 6, 7, 8, 7, 8, 7],
        [3, 4, 5, 6, 7, 8, 7, 8, 9, 8],
        [4, 3, 4, 5, 6, 7, 8, 9, 10, 9],
        [5, 4, 5, 6, 7, 8, 9, 10, 11, 10],
        [6, 5, 6, 7, 8, 9, 8, 9, 10, 11],
        [7, 6, 7, 8, 9, 10, 9, 8, 9, 10],
        [8, 7, 8, 9, 10, 11, 10, 9, 8, 9],
        [9, 8, 9, 10, 11, 12, 11, 10, 9, 8],
    ];

    let tab = distance::get_edit_distance_table(word1, word2);

    for (rowindex, row) in tab.iter().enumerate() {
        for (colindex, element) in row.iter().enumerate() {
            assert_eq!(outcome[rowindex][colindex], element.value);
        }
    }
}
