use far::intersperse::Intersperse;
use far::iter::{collect_all, Concat};

#[test]
fn test_concat() {
    let data = vec![vec![1, 2], vec![], vec![3], vec![4, 5]];
    let mut cnc = Concat::new(data);
    let result: Vec<i32> = collect_all(&mut cnc);

    assert_eq!(vec![1, 2, 3, 4, 5], result);
}

#[test]
fn concat_of_concat_flattens_in_order() {
    let inner_a = Concat::new(vec![vec![1], vec![2, 3]]);
    let inner_b = Concat::new(vec![vec![], vec![4]]);
    let mut nested = Concat::new(vec![inner_a, inner_b]);
    let result: Vec<i32> = collect_all(&mut nested);

    assert_eq!(vec![1, 2, 3, 4], result);
}

#[test]
fn concat_of_empties_yields_nothing() {
    let data: Vec<Vec<u8>> = vec![vec![], vec![], vec![]];
    let mut cnc = Concat::new(data);
    let result: Vec<u8> = collect_all(&mut cnc);

    assert!(result.is_empty());
}

fn test_join(strings: Vec<&str>, sep: &str, expected: Vec<&str>) {
    let mut it = Intersperse::new(strings, sep);
    let actual: Vec<&str> = collect_all(&mut it);

    assert_eq!(actual.len(), expected.len());

    for (a, b) in actual.iter().zip(expected.iter()) {
        assert_eq!(a, b);
    }
}

#[test]
fn test_join_basic() {
    let strings = vec!["abc", "def", "ghi"];
    let expected = vec!["abc", "\n", "def", "\n", "ghi"];

    test_join(strings, "\n", expected);
}

#[test]
fn test_join_one_string() {
    let strings = vec!["abc"];
    let expected = strings.clone();

    test_join(strings, "\n", expected);
}

#[test]
fn test_join_empty() {
    test_join(vec![], "\n", vec![]);
}
