use std::cmp::Ordering::{Equal, Greater, Less};
use table::Entry;
use table::Entry::{Nil, Num, Obj};
use table::Table;

#[test]
fn entry_default() {
    assert_eq!(Entry::<()>::default(), Nil);
}

#[test]
fn table_setting_header() {
    let mut x: Table<()> = Table::new();
    x.set_header(false);
    assert_eq!(x.header, false);
    x.set_header(true);
    assert_eq!(x.header, true);
}

#[test]
fn table_is_empty() {
    let mut r: Table<()> = Table::default();
    assert_eq!(r.is_empty(), true);

    r.add_row(vec![Entry::Nil]);
    assert_eq!(r.is_empty(), false);
}

#[test]
fn new_table_repr() {
    let x: Table<()> = Table::new();
    assert_eq!(x.data.is_empty(), true);
    assert_eq!(x.header, true);
    assert_eq!(x.cols, 0);
}

#[test]
fn table_repr_add() {
    let mut x: Table<()> = Table::new();

    // add a row
    x.add_row(vec![Nil, Num(101.into()), Obj(())]);
    assert_eq!(x.data, vec![vec![Nil, Num(101.into()), Obj(())]]);

    // add a short row
    x.add_row(vec![Obj(())]);
    assert_eq!(
        x.data,
        vec![vec![Nil, Num(101.into()), Obj(())], vec![Obj(()), Nil, Nil]]
    );

    // add a long row
    x.add_row(vec![Obj(()); 4]);
    assert_eq!(
        x.data,
        vec![
            vec![Nil, Num(101.into()), Obj(()), Nil],
            vec![Obj(()), Nil, Nil, Nil],
            vec![Obj(()); 4]
        ]
    );
}

#[test]
fn table_add_rows() {
    let mut x: Table<()> = Table::new();

    let mut v = Vec::new();
    for i in 1..=100 {
        v.push(vec![Obj(()); i]);
    }

    x.add_rows(v);

    let ans: Vec<_> = (1..=100)
        .map(|i| {
            let mut v = vec![Obj(()); i];
            v.resize_with(100, Default::default);
            v
        })
        .collect();

    assert_eq!(x.data, ans);
}

#[test]
fn table_add_col() {
    let mut x: Table<()> = Table::default();

    x.add_col(vec![Obj(())]);
    assert_eq!(x.data, vec![vec![Obj(())]]);

    // longer col
    x.add_col(vec![Nil, Num(101.into()), Num(202.into())]);
    assert_eq!(
        x.data,
        vec![
            vec![Obj(()), Nil],
            vec![Nil, Num(101.into())],
            vec![Nil, Num(202.into())]
        ]
    );

    // shorter col
    x.add_col(vec![Num(303.into())]);
    assert_eq!(
        x.data,
        vec![
            vec![Obj(()), Nil, Num(303.into())],
            vec![Nil, Num(101.into()), Nil],
            vec![Nil, Num(202.into()), Nil]
        ]
    );
}

#[test]
fn table_add_cols() {
    let mut x = Table::new();

    let v: Vec<_> = (1..=100).map(|i| vec![Obj(()); i]).collect();
    x.add_cols(v);

    let ans: Vec<_> = (0..100)
        .map(|i| {
            let mut v = vec![Nil; i];
            v.resize(100, Obj(()));
            v
        })
        .collect();
    assert_eq!(x.data, ans);
}

#[test]
fn test_is_data_empty() {
    let mut r: Table<()> = Table::default();
    assert_eq!(r.is_data_empty(), true);

    r.add_row(vec![Entry::Nil]);
    assert_eq!(r.is_empty(), false);
    assert_eq!(r.is_data_empty(), true);

    r.set_header(false);
    assert_eq!(r.is_data_empty(), false);

    r.set_header(true);
    r.add_row(vec![Entry::Nil]);
    assert_eq!(r.is_data_empty(), false);
}

#[test]
fn test_lens() {
    let mut r: Table<()> = Table::default();
    assert_eq!(r.rows_len(), 0);
    assert_eq!(r.cols_len(), 0);

    r.add_row(vec![Nil, Nil]);
    assert_eq!(r.rows_len(), 1);
    assert_eq!(r.cols_len(), 2);
}

#[test]
fn test_iteration() {
    let mut r: Table<()> = Table::new();
    r.add_rows(vec![
        vec![Nil, Num(101.into())],
        vec![Num(202.into()), Obj(())],
    ]);

    let row = r.row(0).unwrap();
    assert_eq!(row[0], Nil);
    assert_eq!(row[1], Num(101.into()));
    let row = r.row(1).unwrap();
    assert_eq!(row[0], Num(202.into()));
    assert_eq!(row[1], Obj(()));
    assert_eq!(r.row(2).is_none(), true);

    let col = r.col(0).unwrap();
    assert_eq!(col[0], &Nil);
    assert_eq!(col[1], &Num(202.into()));
    let col = r.col(1).unwrap();
    assert_eq!(col[0], &Num(101.into()));
    assert_eq!(col[1], &Obj(()));
    assert_eq!(r.col(2).is_none(), true);

    // iteration
    let rows = r.rows();
    assert_eq!(rows.len(), 2);
    assert_eq!(rows[0], vec![Nil, Num(101.into())]);
    assert_eq!(rows[1], vec![Num(202.into()), Obj(())]);

    let cols = r.cols();
    assert_eq!(cols.len(), 2);
    assert_eq!(cols[0], vec![&Nil, &Num(202.into())]);
    assert_eq!(cols[1], vec![&Num(101.into()), &Obj(())]);
}

#[test]
fn entry_helpers() {
    let e = Entry::<()>::Nil;
    assert_eq!(e.is_nil(), true);
    assert_eq!(e.is_num(), false);

    let e = Entry::<()>::Num(101.into());
    assert_eq!(e.is_num(), true);
    assert_eq!(e.is_obj(), false);

    let e = Entry::Obj(());
    assert_eq!(e.is_obj(), true);
    assert_eq!(e.is_nil(), false);
}

#[test]
fn test_borrowing_example() {
    let mut x = Table::new();
    x.add_rows(vec![
        vec![Nil, Nil, Obj("Hello")],
        vec![Num(101.into())],
        vec![],
    ]);

    let mut brw = Table::new();
    brw.add_rows(x.rows().clone());

    assert_eq!(brw, x);
}

#[test]
fn inserting_rows_columns() {
    let mut repr = <Table<()>>::new();
    repr.insert_row(0, vec![Obj(()), Obj(())]);

    let mut exp = Table::new();
    exp.add_row(vec![Obj(()), Obj(())]);
    assert_eq!(repr, exp);

    repr.insert_row(0, vec![Num(1.into())]);
    let mut exp = Table::new();
    exp.add_rows(vec![vec![Num(1.into()), Nil], vec![Obj(()), Obj(())]]);
    assert_eq!(repr, exp);

    repr.insert_col(2, vec![Num(2.into())]);
    let mut exp = Table::new();
    exp.add_rows(vec![
        vec![Num(1.into()), Nil, Num(2.into())],
        vec![Obj(()), Obj(()), Nil],
    ]);
    assert_eq!(repr, exp);

    repr.insert_col(1, vec![Obj(()), Num(3.into()), Obj(())]);
    let mut exp = Table::new();
    exp.add_rows(vec![
        vec![Num(1.into()), Obj(()), Nil, Num(2.into())],
        vec![Obj(()), Num(3.into()), Obj(()), Nil],
        vec![Nil, Obj(()), Nil, Nil],
    ]);
    assert_eq!(repr, exp);

    repr.insert_row(
        1,
        vec![
            Num(0.into()),
            Num(1.into()),
            Num(2.into()),
            Num(3.into()),
            Num(4.into()),
        ],
    );
    let mut exp = Table::new();
    exp.add_rows(vec![
        vec![Num(1.into()), Obj(()), Nil, Num(2.into()), Nil],
        vec![
            Num(0.into()),
            Num(1.into()),
            Num(2.into()),
            Num(3.into()),
            Num(4.into()),
        ],
        vec![Obj(()), Num(3.into()), Obj(()), Nil, Nil],
        vec![Nil, Obj(()), Nil, Nil, Nil],
    ]);
    assert_eq!(repr, exp);
}

#[test]
fn entry_as_str() {
    assert_eq!(Entry::<String>::Nil.as_str(), "-");
    assert_eq!(Entry::<String>::Num(3.14.into()).as_str(), "3.14");
    assert_eq!(Entry::<String>::Obj("what".into()).as_str(), "what");
}

#[test]
fn remove_rows_columns() {
    let mut table = <Table<()>>::new();
    table.add_rows(vec![
        vec![Obj(()), Num(1.into()), Nil],
        vec![Num(2.into()), Nil, Obj(())],
        vec![Nil, Obj(()), Nil],
    ]);

    assert_eq!((table.rows_len(), table.cols_len()), (3, 3));

    table.remove_row(1);

    assert_eq!((table.rows_len(), table.cols_len()), (2, 3));
    assert_eq!(
        table.data,
        vec![vec![Obj(()), Num(1.into()), Nil], vec![Nil, Obj(()), Nil]]
    );

    table.remove_col(1);

    assert_eq!((table.rows_len(), table.cols_len()), (2, 2));
    assert_eq!(table.data, vec![vec![Obj(()), Nil], vec![Nil, Nil]]);

    table.remove_col(1);

    assert_eq!((table.rows_len(), table.cols_len()), (2, 1));
    // check that cols gets updated
    let mut t = Table::new();
    t.add_rows(vec![vec![Obj(())], vec![Nil]]);
    assert_eq!(table, t);
}

#[test]
fn entry_ordering() {
    // Nil LHS
    let lhs: Entry<()> = Nil;
    let rhs = Nil;
    assert_eq!(lhs.partial_cmp(&rhs), Some(Equal));
    assert!(lhs == rhs);
    assert!(!(lhs > rhs));
    assert!(!(lhs < rhs));

    let lhs = Nil;
    let rhs = Obj("hello");
    assert_eq!(lhs.partial_cmp(&rhs), None);
    assert!(lhs != rhs);
    assert!(!(lhs > rhs));
    assert!(!(lhs < rhs));

    let lhs: Entry<&str> = Nil;
    let rhs = Num(101.into());
    assert_eq!(lhs.partial_cmp(&rhs), None);
    assert!(lhs != rhs);
    assert!(!(lhs > rhs));
    assert!(!(lhs < rhs));

    // Num LHS
    let lhs: Entry<&str> = Num(101.into());
    let rhs = Nil;
    assert_eq!(lhs.partial_cmp(&rhs), None);
    assert!(lhs != rhs);
    assert!(!(lhs > rhs));
    assert!(!(lhs < rhs));

    let lhs: Entry<&str> = Num(101.into());
    let rhs = Num(102.into());
    assert_eq!(lhs.partial_cmp(&rhs), Some(Less));
    assert!(lhs != rhs);
    assert!(!(lhs > rhs));
    assert!(lhs < rhs);

    let lhs: Entry<&str> = Num(101.into());
    let rhs = Obj("hello");
    assert_eq!(lhs.partial_cmp(&rhs), None);
    assert!(lhs != rhs);
    assert!(!(lhs > rhs));
    assert!(!(lhs < rhs));

    // Obj LHS
    let lhs: Entry<&str> = Obj("a");
    let rhs = Nil;
    assert_eq!(lhs.partial_cmp(&rhs), None);
    assert!(lhs != rhs);
    assert!(!(lhs > rhs));
    assert!(!(lhs < rhs));

    let lhs: Entry<&str> = Obj("a");
    let rhs = Num(102.into());
    assert_eq!(lhs.partial_cmp(&rhs), None);
    assert!(lhs != rhs);
    assert!(!(lhs > rhs));
    assert!(!(lhs < rhs));

    let lhs: Entry<&str> = Obj("a");
    let rhs = Obj("b");
    assert_eq!(lhs.partial_cmp(&rhs), Some(Less));
    assert!(lhs != rhs);
    assert!(!(lhs > rhs));
    assert!(lhs < rhs);

    let gt: Entry<&str> = Obj("b");
    assert_eq!(gt.partial_cmp(&Obj("a")), Some(Greater));
}

#[test]
fn table_from_vector_of_vectors() {
    let vs = vec![
        vec![Nil, Num(101.into()), Obj(())],
        vec![],
        vec![Num(202.into())],
    ];

    let table = Table::from_vecs(vs);

    assert_eq!(table.cols, 3);
    assert_eq!(table.header, true);
    assert_eq!(
        table.data,
        vec![
            vec![Nil, Num(101.into()), Obj(())],
            vec![Nil, Nil, Nil],
            vec![Num(202.into()), Nil, Nil]
        ]
    );
}

#[test]
fn test_cloning() {
    let vecs = vec![
        vec![Nil, Obj(()), Num(101.into())],
        vec![Obj(()), Obj(()), Num(303.into())],
        vec![Obj(()), Num(303.into())],
    ];

    let table = Table::from_vecs(vecs.clone());

    let table_clone = table.clone();
    let table_2 = Table::from_vecs(vecs);

    assert_eq!(table, table_clone);
    assert_eq!(table, table_2);
    assert_eq!(table_2, table_clone);
}

#[test]
fn batch_equivalence() {
    let rows = vec![
        vec![Obj("a"), Nil],
        vec![Num(7.into())],
        vec![Obj("b"), Obj("c"), Obj("d")],
    ];

    let mut one_by_one = Table::new();
    for r in rows.clone() {
        one_by_one.add_row(r);
    }
    let mut batch = Table::new();
    batch.add_rows(rows);
    assert_eq!(one_by_one, batch);

    let cols = vec![vec![Obj("x")], vec![Obj("y"), Obj("z")]];
    let mut one_by_one = Table::new();
    for c in cols.clone() {
        one_by_one.add_col(c);
    }
    let mut batch = Table::new();
    batch.add_cols(cols);
    assert_eq!(one_by_one, batch);
}

#[test]
fn insert_then_remove_restores() {
    let mut table = Table::new();
    table.add_rows(vec![vec![Obj("a"), Obj("b")], vec![Nil, Obj("c")]]);
    let before = table.clone();

    table.insert_row(1, vec![Obj("x")]);
    table.remove_row(1);

    assert_eq!(table, before);
}

#[test]
fn test_map() {
    let mut table = Table::new();
    table.add_rows(vec![vec![Nil, Num(1.into())], vec![Obj("a")]]);

    let mapped: Table<()> = table.map(|_| Entry::Num(3.14.into()));
    assert_eq!(mapped.cols, 2);
    assert_eq!(mapped.header, true);
    assert_eq!(
        mapped.data,
        vec![
            vec![Num(3.14.into()), Num(3.14.into())],
            vec![Num(3.14.into()), Num(3.14.into())]
        ]
    );
}

#[test]
fn test_map_obj() {
    let mut table = Table::new();
    table.add_rows(vec![vec![Nil, Num(1.into())], vec![Obj("a")]]);

    let mapped: Table<String> = table.map_obj(|s: &str| Obj(s.to_string()));
    assert_eq!(
        mapped.data,
        vec![
            vec![Nil, Num(1.into())],
            vec![Obj("a".to_string()), Nil]
        ]
    );
}

#[test]
fn entry_accessors() {
    let e: Entry<&str> = Num(101.into());
    assert_eq!(e.num(), Some(101.into()));
    assert_eq!(e.obj(), None);

    let e: Entry<&str> = Obj("x");
    assert_eq!(e.num(), None);
    assert_eq!(e.obj(), Some(&"x"));

    let e: Entry<&str> = Nil;
    assert_eq!(e.num(), None);
    assert_eq!(e.obj(), None);

    assert_eq!(Entry::<&str>::Nil.as_str(), "-");
    assert_eq!(Entry::<&str>::Num(3.14.into()).as_str(), "3.14");
    assert_eq!(Entry::<&str>::Obj("what").as_str(), "what");
}
