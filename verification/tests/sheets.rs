use wix_sheets::data::{RawCellData, RawSheet};
use wix_sheets::sheets::expr::Expr;
use wix_sheets::sheets::message::write_tagged;
use wix_sheets::sheets::operators::{get_default_op_map, OpMap, Operator};
use wix_sheets::sheets::resolve::Resolution;
use wix_sheets::sheets::{CellError, OpInfo, Position, Sheet};
use wix_sheets::types::box_value::BoxValue;
use wix_sheets::types::float::{Float, FloatOp, FloatTable, Order};
use wix_sheets::types::num::Num;
use wix_sheets::types::value::{Kind, Scalar, Value};

/// Performs one operation on doubles.
fn perform(op: &FloatOp) -> u64 {
    match op {
        FloatOp::Parse(text) => text.parse::<f64>().unwrap_or(f64::NAN).to_bits(),
        FloatOp::FromInt(i) => (*i as f64).to_bits(),
        FloatOp::Add(a, b) => (f64::from_bits(a.bits) + f64::from_bits(b.bits)).to_bits(),
        FloatOp::Mul(a, b) => (f64::from_bits(a.bits) * f64::from_bits(b.bits)).to_bits(),
        FloatOp::Div(a, b) => (f64::from_bits(a.bits) / f64::from_bits(b.bits)).to_bits(),
        FloatOp::Compare(a, b) => {
            let (x, y) = (f64::from_bits(a.bits), f64::from_bits(b.bits));
            if x < y {
                0
            } else if x == y {
                1
            } else if x > y {
                2
            } else {
                3
            }
        }
    }
}

/// Reads a sheet, answering operations on doubles as they are asked.
fn load(raw: &RawSheet, floats: &mut FloatTable) -> Sheet {
    loop {
        match Sheet::from_raw(raw, floats) {
            Ok(sheet) => return sheet,
            Err(op) => {
                let answer = perform(&op);
                floats.insert(op, answer);
            }
        }
    }
}

/// Resolves a sheet, answering operations on doubles as they are asked.
fn resolve(sheet: Sheet, ops: &OpMap, floats: &mut FloatTable) -> Sheet {
    let mut sheet = sheet;
    loop {
        let step = sheet.resolve_refs(ops, floats);
        match step.pending {
            None => return step.sheet,
            Some(op) => {
                let answer = perform(&op);
                floats.insert(op, answer);
                sheet = step.sheet;
            }
        }
    }
}

fn run(raw: RawSheet) -> Sheet {
    let ops = get_default_op_map();
    let mut floats = FloatTable::new();
    let sheet = load(&raw, &mut floats);
    resolve(sheet, &ops, &mut floats)
}

fn double(f: f64) -> Expr {
    Expr::Value(BoxValue::new(Scalar::Num(Num::F(Float { bits: f.to_bits() }))))
}

fn raw_text(s: &str) -> RawCellData {
    RawCellData::String(s.to_owned())
}

fn raw_double(f: f64) -> RawCellData {
    RawCellData::Float(Float { bits: f.to_bits() })
}

fn sheet_of(rows: Vec<Vec<RawCellData>>) -> RawSheet {
    RawSheet { id: "sheet-test".to_owned(), data: rows }
}

fn cells_of(rows: Vec<Vec<RawCellData>>) -> Vec<Vec<Expr>> {
    run(sheet_of(rows)).cells
}

fn one(formula: &str) -> Expr {
    cells_of(vec![vec![raw_text(formula)]]).remove(0).remove(0)
}

fn form_error(errors: Vec<CellError>) -> Expr {
    Expr::Error(CellError::FormError(errors))
}

fn arg_error(index: usize, cause: CellError) -> CellError {
    CellError::ArgError(index, Box::new(cause))
}

#[test]
fn parse_then_resolve_with_refs() {
    let raw = RawSheet {
        id: "sheet-test".to_owned(),
        data: vec![
            vec![
                RawCellData::Int(5),
                RawCellData::String("=A1".to_owned()),
                RawCellData::Int(22),
                RawCellData::String("=C1".to_owned()),
                RawCellData::String("=D1".to_owned()),
                RawCellData::String("=G1".to_owned()),
                RawCellData::String("=A2".to_owned()),
            ],
            vec![RawCellData::Int(6), RawCellData::String("=C2".to_owned())],
        ],
    };

    let sheet = run(raw);

    assert_eq!(
        sheet,
        Sheet {
            id: "sheet-test".to_owned(),
            cells: vec![
                vec![
                    Num::I(5).into(),
                    Num::I(5).into(),
                    Num::I(22).into(),
                    Num::I(22).into(),
                    Num::I(22).into(),
                    Num::I(6).into(),
                    Num::I(6).into(),
                ],
                vec![Num::I(6).into(), CellError::InvalidReference((2, 1).into()).into(),]
            ]
        }
    )
}

#[test]
fn parse_then_resolve_ops_with_consts() {
    let raw = RawSheet {
        id: "sheet-test".to_owned(),
        data: vec![vec![RawCellData::String("=SUM(1, 2)".to_owned())]],
    };

    let sheet = run(raw);

    assert_eq!(
        sheet,
        Sheet { id: "sheet-test".to_owned(), cells: vec![vec![Num::I(3).into()]] }
    );
}

#[test]
fn parse_then_resolve_forms_with_refs() {
    let raw = RawSheet {
        id: "sheet-test".to_owned(),
        data: vec![
            vec![RawCellData::String("=SUM(A2, B2)".to_owned())],
            vec![RawCellData::Int(6), RawCellData::String("=1".to_owned())],
        ],
    };

    let sheet = run(raw);

    assert_eq!(
        sheet,
        Sheet {
            id: "sheet-test".to_owned(),
            cells: vec![vec![Num::I(7).into()], vec![Num::I(6).into(), Num::I(1).into(),]]
        }
    );
}

#[test]
fn parse_then_resolve_forms_with_nested_forms_with_refs() {
    let raw = RawSheet {
        id: "sheet-test".to_owned(),
        data: vec![
            vec![
                RawCellData::String("=SUM(A2, B2)".to_owned()),
                RawCellData::String("=SUM(A1, SUM(A3, B3))".to_owned()),
            ],
            vec![RawCellData::Int(6), RawCellData::String("=1".to_owned())],
            vec![
                RawCellData::String("=6.1".to_owned()),
                RawCellData::String("=5".to_owned()),
            ],
        ],
    };

    let sheet = run(raw);

    assert_eq!(
        sheet,
        Sheet {
            id: "sheet-test".to_owned(),
            cells: vec![
                vec![Num::I(7).into(), double(18.1),],
                vec![Num::I(6).into(), Num::I(1).into(),],
                vec![double(6.1), Num::I(5).into(),]
            ]
        }
    );
}

#[test]
fn parse_then_resolve_fn_with_errs() {
    let raw = RawSheet {
        id: "sheet-test".to_owned(),
        data: vec![vec![RawCellData::String("=SUM(1, A2, \"Hi\")".to_owned())]],
    };

    let sheet = run(raw);

    assert_eq!(
        sheet,
        Sheet {
            id: "sheet-test".to_owned(),
            cells: vec![vec![CellError::FormError(vec![
                CellError::ArgError(1, Box::new(CellError::InvalidReference((0, 1).into()))),
                CellError::ArgError(2, Box::new(CellError::TypeMismatch("Num"))),
            ])
            .into()]]
        }
    )
}

#[test]
fn parse_then_resolve_forms_with_mul() {
    let raw = RawSheet {
        id: "sheet-test".to_owned(),
        data: vec![
            vec![
                RawCellData::String("=MULTIPLY(2, 2)".to_owned()),
                RawCellData::String("=MULTIPLY(2, A1)".to_owned()),
            ],
            vec![RawCellData::String("=SUM(MULTIPLY(A1, B1), 2.5)".to_owned())],
        ],
    };

    let sheet = run(raw);

    assert_eq!(
        sheet,
        Sheet {
            id: "sheet-test".to_owned(),
            cells: vec![vec![Num::I(4).into(), Num::I(8).into(),], vec![double(34.5)]]
        }
    )
}

#[test]
fn parse_then_resolve_divide() {
    let raw = RawSheet {
        id: "sheet-test".to_owned(),
        data: vec![
            vec![
                RawCellData::String("=MULTIPLY(2, 2)".to_owned()),
                RawCellData::String("=MULTIPLY(2, A1)".to_owned()),
            ],
            vec![RawCellData::String("=DIVIDE(MULTIPLY(A1, B1), 5)".to_owned())],
        ],
    };

    let sheet = run(raw);

    assert_eq!(
        sheet,
        Sheet {
            id: "sheet-test".to_owned(),
            cells: vec![vec![Num::I(4).into(), Num::I(8).into(),], vec![double(32.0 / 5.0)]]
        }
    );

    let raw = RawSheet {
        id: "sheet-test".to_owned(),
        data: vec![
            vec![
                RawCellData::String("=MULTIPLY(2, 2)".to_owned()),
                RawCellData::String("=MULTIPLY(2, A1)".to_owned()),
            ],
            vec![RawCellData::String("=DIVIDE(MULTIPLY(A1, B1), 0)".to_owned())],
        ],
    };

    let sheet = run(raw);

    assert_eq!(
        sheet,
        Sheet {
            id: "sheet-test".to_owned(),
            cells: vec![
                vec![Num::I(4).into(), Num::I(8).into(),],
                vec![CellError::FormError(vec![CellError::DivByZero]).into()]
            ]
        }
    );
}

#[test]
fn parse_then_resolve_with_concat() {
    let raw = RawSheet {
        id: "sheet-test".to_owned(),
        data: vec![
            vec![
                RawCellData::String("Hello".to_owned()),
                RawCellData::String(", ".to_owned()),
                RawCellData::String("=\"Hi!\"".to_owned()),
            ],
            vec![
                RawCellData::String("=\"World\"".to_owned()),
                RawCellData::String("=CONCAT(A1, B1, A2, C2)".to_owned()),
                RawCellData::String("=CONCAT(\"!\")".to_owned()),
                RawCellData::String("=CONCAT(\"Hello, \", \"World!\")".to_owned()),
            ],
        ],
    };

    let sheet = run(raw);

    assert_eq!(
        sheet,
        Sheet {
            id: "sheet-test".to_owned(),
            cells: vec![
                vec![
                    Expr::Value("Hello".to_owned().into()),
                    Expr::Value(", ".to_owned().into()),
                    Expr::Value("Hi!".to_owned().into()),
                ],
                vec![
                    Expr::Value("World".to_owned().into()),
                    Expr::Value("Hello, World!".to_owned().into()),
                    Expr::Value("!".to_owned().into()),
                    Expr::Value("Hello, World!".to_owned().into()),
                ]
            ]
        }
    );
}

#[test]
fn parse_then_resolve_not() {
    let raw = RawSheet {
        id: "sheet-test".to_owned(),
        data: vec![
            vec![
                RawCellData::String("=NOT(false)".to_owned()),
                RawCellData::String("=NOT(A1)".to_owned()),
            ],
            vec![
                RawCellData::String("=NOT(B2))".to_owned()),
                RawCellData::String("false".to_owned()),
                RawCellData::String("=true".to_owned()),
            ],
        ],
    };

    let sheet = run(raw);

    assert_eq!(
        sheet,
        Sheet {
            id: "sheet-test".to_owned(),
            cells: vec![
                vec![Expr::Value(true.into()), Expr::Value(false.into()),],
                vec![
                    Expr::Value(true.into()),
                    Expr::Value(false.into()),
                    Expr::Value(true.into()),
                ]
            ]
        }
    );
}

#[test]
fn parse_then_resolve_gt() {
    let raw = RawSheet {
        id: "sheet-test".to_owned(),
        data: vec![
            vec![RawCellData::Int(5), raw_double(6.0)],
            vec![
                RawCellData::String("=GT(A1, B1)".to_owned()),
                RawCellData::String("=GT(B1, 4.9)".to_owned()),
            ],
        ],
    };

    let sheet = run(raw);

    assert_eq!(
        sheet,
        Sheet {
            id: "sheet-test".to_owned(),
            cells: vec![
                vec![Expr::Value(Num::I(5).into()), double(6.0)],
                vec![Expr::Value(false.into()), Expr::Value(true.into()),]
            ]
        }
    );
}

#[test]
fn parse_then_resolve_eq() {
    let raw = RawSheet {
        id: "sheet-test".to_owned(),
        data: vec![
            vec![RawCellData::Int(6), raw_double(6.0)],
            vec![
                RawCellData::String("=EQ(A1, B1)".to_owned()),
                RawCellData::String("=EQ(B1, \"String\")".to_owned()),
            ],
        ],
    };

    let sheet = run(raw);

    assert_eq!(
        sheet,
        Sheet {
            id: "sheet-test".to_owned(),
            cells: vec![
                vec![Expr::Value(Num::I(6).into()), double(6.0)],
                vec![
                    Expr::Value(true.into()),
                    Expr::Error(CellError::FormError(vec![CellError::BinaryTypeMismatch])),
                ]
            ]
        }
    );
}

#[test]
fn parse_then_resolve_and_not() {
    let raw = RawSheet {
        id: "sheet-test".to_owned(),
        data: vec![
            vec![RawCellData::Int(6), raw_double(6.0)],
            vec![
                RawCellData::String("=EQ(A1, B1)".to_owned()),
                RawCellData::String("=EQ(B1, \"String\")".to_owned()),
            ],
            vec![
                RawCellData::String("=AND(true, A2)".to_owned()),
                RawCellData::String("=OR(false, A3)".to_owned()),
            ],
        ],
    };

    let sheet = run(raw);

    assert_eq!(
        sheet,
        Sheet {
            id: "sheet-test".to_owned(),
            cells: vec![
                vec![Expr::Value(Num::I(6).into()), double(6.0)],
                vec![
                    Expr::Value(true.into()),
                    Expr::Error(CellError::FormError(vec![CellError::BinaryTypeMismatch])),
                ],
                vec![Expr::Value(true.into()), Expr::Value(true.into()),]
            ]
        }
    );
}

#[test]
fn parse_then_resolve_if() {
    let raw = RawSheet {
        id: "sheet-test".to_owned(),
        data: vec![
            vec![RawCellData::Int(6), raw_double(6.0)],
            vec![
                RawCellData::String("=IF(EQ(A1, B1), \"Equal\", \"Not equal\")".to_owned()),
                RawCellData::String("=EQ(A2, \"String\")".to_owned()),
            ],
        ],
    };

    let sheet = run(raw);

    assert_eq!(
        sheet,
        Sheet {
            id: "sheet-test".to_owned(),
            cells: vec![
                vec![Expr::Value(Num::I(6).into()), double(6.0)],
                vec![Expr::Value("Equal".to_owned().into()), Expr::Value(false.into()),],
            ]
        }
    );
}

#[test]
fn ref_cycles_simple() {
    let raw = RawSheet {
        id: "sheet-test".to_owned(),
        data: vec![
            vec![
                RawCellData::String("=B1".to_owned()),
                RawCellData::String("=A1".to_owned()),
            ],
            vec![
                RawCellData::String("=B1".to_owned()),
                RawCellData::String("=A1".to_owned()),
            ],
        ],
    };

    let sheet = run(raw);

    let cycle_error = CellError::CircularRef;

    assert_eq!(
        sheet,
        Sheet {
            id: "sheet-test".to_owned(),
            cells: vec![
                vec![Expr::Error(cycle_error.clone()), Expr::Error(cycle_error.clone()),],
                vec![Expr::Error(cycle_error.clone()), Expr::Error(cycle_error.clone()),],
            ]
        }
    );
}

#[test]
fn a_cell_that_refers_to_itself() {
    assert_eq!(one("=A1"), Expr::Error(CellError::CircularRef));
    assert_eq!(one("=SUM(1, A1)"), form_error(vec![arg_error(1, CellError::CircularRef)]));
}

#[test]
fn a_cycle_away_from_the_first_cell_ends() {
    let cells = cells_of(vec![vec![raw_text("=B1"), raw_text("=C1"), raw_text("=B1")]]);
    assert_eq!(
        cells,
        vec![vec![
            Expr::Error(CellError::CircularRef),
            Expr::Error(CellError::CircularRef),
            Expr::Error(CellError::CircularRef),
        ]]
    );
}

fn goes_back_to_a_cycle(e: &CellError) -> bool {
    match e {
        CellError::CircularRef => true,
        CellError::RefError(cause, _) => goes_back_to_a_cycle(cause),
        CellError::ArgError(_, cause) => goes_back_to_a_cycle(cause),
        CellError::FormError(list) => list.iter().any(goes_back_to_a_cycle),
        _ => false,
    }
}

#[test]
fn a_cycle_through_formulas() {
    let cells = cells_of(vec![vec![
        raw_text("=SUM(1, B1)"),
        raw_text("=NOT(C1)"),
        raw_text("=CONCAT(\"x\", A1)"),
        raw_text("=A1"),
        RawCellData::Int(3),
    ]]);
    for cell in &cells[0][0..4] {
        assert!(cell.is_err());
        assert!(goes_back_to_a_cycle(cell.unwrap_err_ref()));
    }
    assert_eq!(cells[0][4], Num::I(3).into());
    // C1 is reached last and meets the origin; the others wrap what they are handed.
    let c1 = CellError::FormError(vec![arg_error(1, CellError::CircularRef)]);
    let b1 = CellError::FormError(vec![arg_error(
        0,
        CellError::RefError(Box::new(c1.clone()), Position { x: 2, y: 0 }),
    )]);
    let a1 = CellError::FormError(vec![arg_error(
        1,
        CellError::RefError(Box::new(b1.clone()), Position { x: 1, y: 0 }),
    )]);
    assert_eq!(cells[0][2], Expr::Error(c1));
    assert_eq!(cells[0][1], Expr::Error(b1));
    assert_eq!(cells[0][0], Expr::Error(a1.clone()));
    assert_eq!(
        cells[0][3],
        Expr::Error(CellError::RefError(Box::new(a1), Position { x: 0, y: 0 }))
    );
}

#[test]
fn a_cycle_through_an_unknown_operator_is_hidden_by_it() {
    let cells = cells_of(vec![vec![raw_text("=FOO(B1)"), raw_text("=A1")]]);
    assert_eq!(cells[0][0], Expr::Error(CellError::NoOpFound("FOO".to_owned())));
    assert_eq!(cells[0][1], Expr::Error(CellError::CircularRef));
}

#[test]
fn errors_reach_through_references() {
    let cells = cells_of(vec![vec![
        raw_text("=SUM("),
        raw_text("=A1"),
        raw_text("=B1"),
        raw_text("=SUM(C1)"),
    ]]);
    let a1 = CellError::ParseError;
    let b1 = CellError::RefError(Box::new(a1.clone()), Position { x: 0, y: 0 });
    let c1 = CellError::RefError(Box::new(b1.clone()), Position { x: 1, y: 0 });
    assert_eq!(cells[0][0], Expr::Error(a1));
    assert_eq!(cells[0][1], Expr::Error(b1));
    assert_eq!(cells[0][2], Expr::Error(c1.clone()));
    assert_eq!(
        cells[0][3],
        form_error(vec![arg_error(
            0,
            CellError::RefError(Box::new(c1), Position { x: 2, y: 0 })
        )])
    );
}

#[test]
fn forward_references_are_resolved_on_the_way() {
    let cells = cells_of(vec![
        vec![raw_text("=A3"), raw_text("=SUM(A2, 1)")],
        vec![raw_text("=MULTIPLY(2, 2)")],
        vec![raw_text("=B1")],
    ]);
    assert_eq!(
        cells,
        vec![
            vec![Num::I(5).into(), Num::I(5).into()],
            vec![Num::I(4).into()],
            vec![Num::I(5).into()]
        ]
    );
}

#[test]
fn unknown_operators() {
    assert_eq!(one("=FOO(1)"), Expr::Error(CellError::NoOpFound("FOO".to_owned())));
    assert_eq!(one("=sum(1)"), Expr::Error(CellError::NoOpFound("sum".to_owned())));
    assert_eq!(one("=(1)"), Expr::Error(CellError::NoOpFound("".to_owned())));
    assert_eq!(one("=FOO(\"x\", A9)"), Expr::Error(CellError::NoOpFound("FOO".to_owned())));
    assert_eq!(
        one("=SUM(FOO(1))"),
        form_error(vec![arg_error(0, CellError::NoOpFound("FOO".to_owned()))])
    );
}

#[test]
fn sums_and_products() {
    assert_eq!(one("=SUM(5)"), Num::I(5).into());
    assert_eq!(one("=SUM(1, 2, 3, 4)"), Num::I(10).into());
    assert_eq!(one("=MULTIPLY(7)"), Num::I(7).into());
    assert_eq!(one("=MULTIPLY(2, 3, 4)"), Num::I(24).into());
    assert_eq!(one("=SUM(1, 2.5)"), double(3.5));
    assert_eq!(one("=SUM(2.5)"), double(2.5));
    assert_eq!(one("=SUM(0.1, 0.2)"), double(0.0 + 0.1 + 0.2));
    assert_eq!(one("=MULTIPLY(2, 1.5)"), double(3.0));
    assert_eq!(one("=MULTIPLY(1.5, 2, 2)"), double(6.0));
    assert_eq!(one("=SUM(1.0, 2.0)"), double(3.0));
}

#[test]
fn integers_wrap_round() {
    let cells = cells_of(vec![vec![
        RawCellData::Int(i64::MAX),
        RawCellData::Int(i64::MIN),
        RawCellData::Int(-1),
        raw_text("=SUM(A1, 1)"),
        raw_text("=MULTIPLY(A1, 2)"),
        raw_text("=DIVIDE(B1, C1)"),
        raw_text("=SUM(B1, C1)"),
    ]]);
    assert_eq!(cells[0][3], Num::I(i64::MIN).into());
    assert_eq!(cells[0][4], Num::I(-2).into());
    assert_eq!(cells[0][5], Num::I(i64::MIN).into());
    assert_eq!(cells[0][6], Num::I(i64::MAX).into());
}

#[test]
fn division() {
    assert_eq!(one("=DIVIDE(6, 3)"), Num::I(2).into());
    assert_eq!(one("=DIVIDE(7, 2)"), double(3.5));
    assert_eq!(one("=DIVIDE(0, 5)"), Num::I(0).into());
    assert_eq!(one("=DIVIDE(1, 3)"), double(1.0 / 3.0));
    assert_eq!(one("=DIVIDE(6.0, 3)"), double(2.0));
    assert_eq!(one("=DIVIDE(6, 3.0)"), double(2.0));
    assert_eq!(one("=DIVIDE(1, 0)"), form_error(vec![CellError::DivByZero]));
    assert_eq!(one("=DIVIDE(1, 0.0)"), form_error(vec![CellError::DivByZero]));
    assert_eq!(one("=DIVIDE(1.5, 0)"), form_error(vec![CellError::DivByZero]));
    assert_eq!(one("=DIVIDE(0, 0)"), form_error(vec![CellError::DivByZero]));
    let cells = cells_of(vec![vec![
        RawCellData::Int(-6),
        RawCellData::Int(3),
        RawCellData::Int(-3),
        raw_double(-0.0),
        raw_text("=DIVIDE(A1, B1)"),
        raw_text("=DIVIDE(A1, C1)"),
        raw_text("=DIVIDE(B1, A1)"),
        raw_text("=DIVIDE(B1, D1)"),
    ]]);
    assert_eq!(cells[0][4], Num::I(-2).into());
    assert_eq!(cells[0][5], Num::I(2).into());
    assert_eq!(cells[0][6], double(-0.5));
    assert_eq!(cells[0][7], form_error(vec![CellError::DivByZero]));
}

#[test]
fn comparisons() {
    assert_eq!(one("=GT(2, 1)"), Expr::Value(true.into()));
    assert_eq!(one("=GT(1, 2)"), Expr::Value(false.into()));
    assert_eq!(one("=GT(1, 1)"), Expr::Value(false.into()));
    assert_eq!(one("=GT(1.5, 1)"), Expr::Value(true.into()));
    assert_eq!(one("=GT(1, 1.5)"), Expr::Value(false.into()));
    assert_eq!(one("=GT(true, false)"), Expr::Value(true.into()));
    assert_eq!(one("=GT(false, true)"), Expr::Value(false.into()));
    assert_eq!(one("=GT(true, true)"), Expr::Value(false.into()));
    assert_eq!(one("=GT(\"b\", \"a\")"), Expr::Value(true.into()));
    assert_eq!(one("=GT(\"a\", \"b\")"), Expr::Value(false.into()));
    assert_eq!(one("=GT(\"ab\", \"a\")"), Expr::Value(true.into()));
    assert_eq!(one("=GT(\"a\", \"ab\")"), Expr::Value(false.into()));
    assert_eq!(one("=GT(\"a\", \"B\")"), Expr::Value(true.into()));
    assert_eq!(one("=GT(\"é\", \"z\")"), Expr::Value(true.into()));
    assert_eq!(one("=GT(\"\", \"\")"), Expr::Value(false.into()));
    assert_eq!(one("=GT(1, \"a\")"), form_error(vec![CellError::BinaryTypeMismatch]));
    assert_eq!(one("=GT(true, 1)"), form_error(vec![CellError::BinaryTypeMismatch]));
    assert_eq!(one("=EQ(6, \"String\")"), form_error(vec![CellError::BinaryTypeMismatch]));
    assert_eq!(one("=EQ(6, 6.0)"), Expr::Value(true.into()));
    assert_eq!(one("=EQ(6, 7)"), Expr::Value(false.into()));
    assert_eq!(one("=EQ(6.5, 6.5)"), Expr::Value(true.into()));
    assert_eq!(one("=EQ(true, true)"), Expr::Value(true.into()));
    assert_eq!(one("=EQ(true, false)"), Expr::Value(false.into()));
    assert_eq!(one("=EQ(\"a\", \"a\")"), Expr::Value(true.into()));
    assert_eq!(one("=EQ(\"a\", \"b\")"), Expr::Value(false.into()));
}

#[test]
fn what_is_not_a_number_is_unordered() {
    let cells = cells_of(vec![vec![
        raw_double(f64::NAN),
        raw_text("=GT(A1, 1)"),
        raw_text("=GT(1, A1)"),
        raw_text("=EQ(A1, A1)"),
    ]]);
    assert_eq!(cells[0][1], Expr::Value(false.into()));
    assert_eq!(cells[0][2], Expr::Value(false.into()));
    assert_eq!(cells[0][3], Expr::Value(false.into()));
}

#[test]
fn booleans() {
    assert_eq!(one("=NOT(true)"), Expr::Value(false.into()));
    assert_eq!(one("=AND(true)"), Expr::Value(true.into()));
    assert_eq!(one("=AND(true, true, false)"), Expr::Value(false.into()));
    assert_eq!(one("=AND(true, true, true)"), Expr::Value(true.into()));
    assert_eq!(one("=OR(false)"), Expr::Value(false.into()));
    assert_eq!(one("=OR(false, false, true)"), Expr::Value(true.into()));
    assert_eq!(one("=OR(false, false)"), Expr::Value(false.into()));
}

#[test]
fn conditions() {
    assert_eq!(one("=IF(true, 1, 2)"), Num::I(1).into());
    assert_eq!(one("=IF(false, 1, 2)"), Num::I(2).into());
    assert_eq!(one("=IF(true, 1, 2.5)"), Num::I(1).into());
    assert_eq!(one("=IF(false, 1, 2.5)"), double(2.5));
    assert_eq!(one("=IF(GT(2, 1), \"yes\", \"no\")"), Expr::Value("yes".to_owned().into()));
    // The third argument must be of the kind of the second.
    assert_eq!(
        one("=IF(true, 1, \"no\")"),
        form_error(vec![arg_error(2, CellError::TypeMismatch("Num"))])
    );
    assert_eq!(
        one("=IF(false, true, 0)"),
        form_error(vec![arg_error(2, CellError::TypeMismatch("Boolean"))])
    );
    assert_eq!(
        one("=IF(false, \"a\", 0.5)"),
        form_error(vec![arg_error(2, CellError::TypeMismatch("String"))])
    );
    assert_eq!(
        one("=IF(0, \"a\", 0.5)"),
        form_error(vec![
            arg_error(0, CellError::TypeMismatch("Boolean")),
            arg_error(2, CellError::TypeMismatch("String")),
        ])
    );
    assert_eq!(
        one("=IF(true, A9, 1)"),
        form_error(vec![arg_error(1, CellError::InvalidReference(Position { x: 0, y: 8 }))])
    );
    assert_eq!(
        one("=IF(1, 2, 3)"),
        form_error(vec![arg_error(0, CellError::TypeMismatch("Boolean"))])
    );
    assert_eq!(
        one("=IF(true, 2, Z9)"),
        form_error(vec![arg_error(2, CellError::InvalidReference(Position { x: 25, y: 8 }))])
    );
}

#[test]
fn concatenation() {
    assert_eq!(one("=CONCAT()"), Expr::Value("".to_owned().into()));
    assert_eq!(one("=CONCAT(\"a\")"), Expr::Value("a".to_owned().into()));
    assert_eq!(one("=CONCAT(\"a\", \"\", \"bc\")"), Expr::Value("abc".to_owned().into()));
    assert_eq!(
        one("=CONCAT(\"a\", 1)"),
        form_error(vec![arg_error(1, CellError::TypeMismatch("String"))])
    );
}

#[test]
fn wrong_numbers_of_arguments() {
    let count = |lo: usize, hi: usize, n: usize| CellError::InvalidArgCount(lo..=hi, n);
    assert_eq!(one("=SUM()"), form_error(vec![count(1, usize::MAX, 0)]));
    assert_eq!(one("=MULTIPLY()"), form_error(vec![count(1, usize::MAX, 0)]));
    assert_eq!(one("=AND()"), form_error(vec![count(1, usize::MAX, 0)]));
    assert_eq!(one("=OR()"), form_error(vec![count(1, usize::MAX, 0)]));
    assert_eq!(one("=DIVIDE(1)"), form_error(vec![count(2, 2, 1)]));
    assert_eq!(one("=DIVIDE(1, 2, 3)"), form_error(vec![count(2, 2, 3)]));
    assert_eq!(one("=GT(1)"), form_error(vec![count(2, 2, 1)]));
    assert_eq!(one("=EQ(1, 2, 3)"), form_error(vec![count(2, 2, 3)]));
    assert_eq!(one("=NOT()"), form_error(vec![count(1, 1, 0)]));
    assert_eq!(one("=NOT(true, false)"), form_error(vec![count(1, 1, 2)]));
    assert_eq!(one("=IF(true, 1)"), form_error(vec![count(3, 3, 2)]));
    assert_eq!(one("=IF(true, 1, 2, 3)"), form_error(vec![count(3, 3, 4)]));
}

#[test]
fn errors_are_gathered_in_order() {
    // Arguments that are errors come first, then the count, then the kinds.
    assert_eq!(
        one("=DIVIDE(\"a\", B7, 3)"),
        form_error(vec![
            arg_error(1, CellError::InvalidReference(Position { x: 1, y: 6 })),
            CellError::InvalidArgCount(2..=2, 3),
            arg_error(0, CellError::TypeMismatch("Num")),
        ])
    );
    assert_eq!(
        one("=SUM(true, \"a\", 1, A0)"),
        form_error(vec![
            arg_error(3, CellError::ParseError),
            arg_error(0, CellError::TypeMismatch("Num")),
            arg_error(1, CellError::TypeMismatch("Num")),
        ])
    );
    assert_eq!(
        one("=NOT(1)"),
        form_error(vec![arg_error(0, CellError::TypeMismatch("Boolean"))])
    );
    assert_eq!(
        one("=AND(true, 1, \"x\")"),
        form_error(vec![
            arg_error(1, CellError::TypeMismatch("Boolean")),
            arg_error(2, CellError::TypeMismatch("Boolean")),
        ])
    );
    // Only the places that an operator of fixed arity declares are checked for kind.
    assert_eq!(
        one("=NOT(true, 5)"),
        form_error(vec![CellError::InvalidArgCount(1..=1, 2)])
    );
}

#[test]
fn resolving_twice_changes_nothing() {
    let ops = get_default_op_map();
    let mut floats = FloatTable::new();
    let raw = sheet_of(vec![
        vec![raw_text("=SUM(A2, 1.5)"), raw_text("=B1"), raw_text("=FOO()")],
        vec![RawCellData::Int(2), raw_text("text"), raw_double(0.25), RawCellData::Bool(true)],
    ]);
    let sheet = load(&raw, &mut floats);
    let once = resolve(sheet, &ops, &mut floats);
    let copy = Sheet { id: once.id.clone(), cells: once.cells.clone() };
    let again = copy.resolve_refs(&ops, &FloatTable::new());
    assert_eq!(again, Resolution { sheet: once, pending: None });
}

#[test]
fn values_and_errors_stay_as_they_are() {
    let ops = get_default_op_map();
    let sheet = Sheet {
        id: "kept".to_owned(),
        cells: vec![
            vec![
                Num::I(1).into(),
                double(1.5),
                Expr::Value(true.into()),
                Expr::Value("=SUM(1, 2)".to_owned().into()),
                Expr::Error(CellError::DivByZero),
            ],
            vec![],
            vec![Expr::Error(CellError::NoOpFound("x".to_owned()))],
        ],
    };
    let copy = sheet.cells.clone();
    let out = sheet.resolve_refs(&ops, &FloatTable::new());
    assert_eq!(out.pending, None);
    assert_eq!(out.sheet.id, "kept");
    assert_eq!(out.sheet.cells, copy);
}

#[test]
fn the_shape_is_kept() {
    let cells = cells_of(vec![
        vec![],
        vec![raw_text("=A3"), raw_text("=B2")],
        vec![raw_text("=SUM(1, 1)")],
        vec![],
    ]);
    assert_eq!(cells.iter().map(|row| row.len()).collect::<Vec<_>>(), vec![0, 2, 1, 0]);
    assert_eq!(cells[1][0], Num::I(2).into());
    assert_eq!(cells[1][1], Expr::Error(CellError::CircularRef));
    let empty = run(RawSheet { id: "none".to_owned(), data: vec![] });
    assert_eq!(empty, Sheet { id: "none".to_owned(), cells: vec![] });
}

#[test]
fn work_stops_for_an_answer_and_goes_on_with_it() {
    let ops = get_default_op_map();
    let mut floats = FloatTable::new();
    let raw = sheet_of(vec![vec![
        RawCellData::Int(1),
        raw_double(2.5),
        raw_text("=SUM(A1, B1)"),
        raw_text("=C1"),
    ]]);
    let sheet = Sheet::from_raw(&raw, &floats).unwrap();

    let step = sheet.resolve_refs(&ops, &floats);
    let asked = FloatOp::FromInt(1);
    assert_eq!(step.pending, Some(asked.clone()));
    assert_eq!(floats.lookup(&asked), None);
    // The cell under way is as it was.
    assert_eq!(step.sheet, Sheet::from_raw(&raw, &floats).unwrap());

    floats.insert(asked, 1.0f64.to_bits());
    let step = step.sheet.resolve_refs(&ops, &floats);
    let asked = FloatOp::Add(Float { bits: 1.0f64.to_bits() }, Float { bits: 2.5f64.to_bits() });
    assert_eq!(step.pending, Some(asked.clone()));

    floats.insert(asked, 3.5f64.to_bits());
    let step = step.sheet.resolve_refs(&ops, &floats);
    assert_eq!(step.pending, None);
    assert_eq!(step.sheet.cells[0][2], double(3.5));
    assert_eq!(step.sheet.cells[0][3], double(3.5));
}

#[test]
fn what_the_table_says_is_what_is_used() {
    // The library takes the table's word; here the table says that 1 + 1 is 5.
    let ops = get_default_op_map();
    let mut floats = FloatTable::new();
    let one_bits = 1.0f64.to_bits();
    floats.insert(FloatOp::Add(Float { bits: one_bits }, Float { bits: one_bits }), 0);
    floats.insert(
        FloatOp::Add(Float { bits: one_bits }, Float { bits: one_bits }),
        5.0f64.to_bits(),
    );
    floats.insert(FloatOp::FromInt(0), 1.0f64.to_bits());
    let sheet = Sheet { id: "s".to_owned(), cells: vec![vec![Expr::Form(
        OpInfo { name: "SUM".to_owned(), args: vec![double(1.0)] },
    )]] };
    let out = sheet.resolve_refs(&ops, &floats);
    assert_eq!(out.pending, None);
    assert_eq!(out.sheet.cells[0][0], double(5.0));
}

#[test]
fn plain_cells_leave_as_they_came() {
    let raw = sheet_of(vec![
        vec![
            RawCellData::Int(-3),
            raw_double(10.75),
            RawCellData::Bool(false),
            raw_text("plain text"),
            raw_text(""),
        ],
        vec![raw_text("x=1"), RawCellData::Int(0)],
    ]);
    let ops = get_default_op_map();
    let mut floats = FloatTable::new();
    let sheet = load(&raw, &mut floats);
    let sheet = resolve(sheet, &ops, &mut floats);
    assert_eq!(sheet.to_raw(), raw);
    assert_eq!(floats, FloatTable::new());
}

#[test]
fn the_text_true_leaves_as_a_boolean() {
    let sheet = run(sheet_of(vec![vec![raw_text("true"), raw_text("false")]]));
    assert_eq!(
        sheet.to_raw().data,
        vec![vec![RawCellData::Bool(true), RawCellData::Bool(false)]]
    );
}

#[test]
fn resolved_cells_leave_as_values_and_messages() {
    let sheet = run(sheet_of(vec![vec![
        raw_text("=SUM(1, 2)"),
        raw_text("=DIVIDE(1, 2)"),
        raw_text("=NOT(false)"),
        raw_text("=CONCAT(\"a\", \"b\")"),
        raw_text("=DIVIDE(1, 0)"),
        raw_text("=A1:"),
        raw_text("=Q7"),
    ]]));
    assert_eq!(
        sheet.to_raw().data,
        vec![vec![
            RawCellData::Int(3),
            raw_double(0.5),
            RawCellData::Bool(true),
            raw_text("ab"),
            raw_text("#ERROR: These errors have occurred in this formula: [DivByZero]"),
            RawCellData::Int(3),
            raw_text("#ERROR: This cell references non-existent cell at Q7"),
        ]]
    );
}

#[test]
fn messages() {
    let at = |x: usize, y: usize| Position { x, y };
    assert_eq!(CellError::ParseError.message(), "#ERROR: Malformed formula");
    assert_eq!(
        CellError::TypeMismatch("Num").message(),
        "#ERROR: Incompatible types, expected Num"
    );
    assert_eq!(CellError::BinaryTypeMismatch.message(), "#ERROR: Incompatible types");
    assert_eq!(
        CellError::InvalidReference(at(0, 1)).message(),
        "#ERROR: This cell references non-existent cell at A2"
    );
    assert_eq!(
        CellError::InvalidArgCount(2..=2, 3).message(),
        "#ERROR: This operation takes 2..=2 args, but 3 were supplied"
    );
    assert_eq!(
        CellError::InvalidArgCount(1..=usize::MAX, 0).message(),
        format!("#ERROR: This operation takes 1..={} args, but 0 were supplied", usize::MAX)
    );
    assert_eq!(
        CellError::NoOpFound("FOO".to_owned()).message(),
        "#ERROR: Could not find an operation named FOO"
    );
    assert_eq!(
        CellError::RefError(Box::new(CellError::DivByZero), at(1, 0)).message(),
        "#ERROR: Referenced cell B1 has errors #ERROR: Division by zero"
    );
    assert_eq!(
        CellError::RefError(Box::new(CellError::CircularRef), at(25, 99)).message(),
        "#ERROR: Referenced cell Z100 has errors #ERROR: ref error"
    );
    assert_eq!(
        CellError::ArgError(2, Box::new(CellError::ParseError)).message(),
        "#ERROR: Malformed formula [problem with an argument at position: 2]"
    );
    assert_eq!(CellError::DivByZero.message(), "#ERROR: Division by zero");
    assert_eq!(CellError::CircularRef.message(), "#ERROR: ref error");
    assert_eq!(
        CellError::FormError(vec![]).message(),
        "#ERROR: These errors have occurred in this formula: []"
    );
}

#[test]
fn the_message_of_a_formula_lists_its_errors_as_the_language_writes_them() {
    let errors = vec![
        CellError::ArgError(1, Box::new(CellError::InvalidReference(Position { x: 0, y: 1 }))),
        CellError::ArgError(2, Box::new(CellError::TypeMismatch("Num"))),
        CellError::InvalidArgCount(2..=2, 3),
        CellError::NoOpFound("say \"hi\"\n".to_owned()),
        CellError::RefError(Box::new(CellError::CircularRef), Position { x: 3, y: 4 }),
        CellError::FormError(vec![CellError::DivByZero, CellError::BinaryTypeMismatch]),
        CellError::FormError(vec![]),
        CellError::ParseError,
    ];
    let expected = format!(
        "#ERROR: These errors have occurred in this formula: {:?}",
        errors
    );
    assert_eq!(
        expected,
        "#ERROR: These errors have occurred in this formula: [\
         ArgError(1, InvalidReference(Position { x: 0, y: 1 })), \
         ArgError(2, TypeMismatch(\"Num\")), \
         InvalidArgCount(2..=2, 3), \
         NoOpFound(\"say \\\"hi\\\"\\n\"), \
         RefError(CircularRef, Position { x: 3, y: 4 }), \
         FormError([DivByZero, BinaryTypeMismatch]), \
         FormError([]), \
         ParseError]"
    );
    assert_eq!(CellError::FormError(errors).message(), expected);
}

#[test]
fn positions_by_name() {
    assert_eq!(Position { x: 0, y: 0 }.name(), "A1");
    assert_eq!(Position { x: 1, y: 1 }.name(), "B2");
    assert_eq!(Position { x: 25, y: 9 }.name(), "Z10");
    assert_eq!(Position { x: 32, y: 0 }.name(), "a1");
    assert_eq!(Position { x: 57, y: 122 }.name(), "z123");
    // Columns without a letter are written as the number 65 more.
    assert_eq!(Position { x: 26, y: 0 }.name(), "911");
    assert_eq!(Position { x: 58, y: 0 }.name(), "1231");
    assert_eq!(
        Position { x: usize::MAX, y: usize::MAX }.name(),
        format!("{}{}", usize::MAX as u128 + 65, usize::MAX as u128 + 1)
    );
    assert_eq!(Position::new(3, 4), Position { x: 3, y: 4 });
    assert_eq!(Position::from((3, 4)), Position { x: 3, y: 4 });
}

#[test]
fn cells_by_position() {
    let mut sheet = Sheet {
        id: "grid".to_owned(),
        cells: vec![vec![Num::I(1).into(), Num::I(2).into()], vec![], vec![Num::I(3).into()]],
    };
    assert_eq!(sheet.get(Position { x: 1, y: 0 }), Some(&Num::I(2).into()));
    assert_eq!(sheet.get(Position { x: 0, y: 2 }), Some(&Num::I(3).into()));
    assert_eq!(sheet.get(Position { x: 2, y: 0 }), None);
    assert_eq!(sheet.get(Position { x: 0, y: 1 }), None);
    assert_eq!(sheet.get(Position { x: 0, y: 3 }), None);
    sheet.set_unchecked(Position { x: 1, y: 0 }, Expr::Value(true.into()));
    assert_eq!(sheet.get(Position { x: 1, y: 0 }), Some(&Expr::Value(true.into())));
    assert_eq!(sheet.get(Position { x: 0, y: 0 }), Some(&Num::I(1).into()));
}

#[test]
fn one_cell_at_a_time() {
    let ops = get_default_op_map();
    let floats = FloatTable::new();
    let raw = sheet_of(vec![vec![raw_text("=B1"), raw_text("=SUM(C1, 1)"), RawCellData::Int(4)]]);
    let mut sheet = Sheet::from_raw(&raw, &floats).unwrap();
    let a1 = Position { x: 0, y: 0 };
    assert_eq!(sheet.resolve_on_pos(a1, a1, &ops, &floats), Ok(Some(Num::I(5).into())));
    assert_eq!(sheet.cells[0], vec![Num::I(5).into(), Num::I(5).into(), Num::I(4).into()]);
    let off = Position { x: 0, y: 7 };
    assert_eq!(sheet.resolve_on_pos(off, off, &ops, &floats), Ok(None));
}

#[test]
fn expressions_by_variant() {
    let value: Expr = Num::I(1).into();
    let reference = Expr::Ref(Position { x: 1, y: 2 });
    let call = Expr::Form(OpInfo { name: "F".to_owned(), args: vec![] });
    let error: Expr = CellError::DivByZero.into();
    assert!(value.is_value() && !value.is_ref() && !value.is_form() && !value.is_err());
    assert!(reference.is_ref() && !reference.is_value() && !reference.is_terminal());
    assert!(call.is_form() && !call.is_terminal());
    assert!(error.is_err() && error.is_terminal() && value.is_terminal());
    assert_eq!(value.unwrap_value_ref(), &BoxValue::new(Scalar::Num(Num::I(1))));
    assert_eq!(value.unwrap_downcast_ref::<Num>(), &Num::I(1));
    assert_eq!(reference.unwrap_ref_ref(), &Position { x: 1, y: 2 });
    assert_eq!(error.unwrap_err_ref(), &CellError::DivByZero);
    assert_eq!(value.clone(), value);
    assert_eq!(call.clone(), call);
    assert_eq!(BoxValue::from(true).move_inner(), Box::new(Scalar::Bool(true)));
    assert_eq!(BoxValue::from(Box::new(Scalar::Bool(true))), BoxValue::from(true));
    assert_eq!(Expr::from(BoxValue::from("s".to_owned())), Expr::Value("s".to_owned().into()));
    assert_eq!(Expr::from("s".to_owned()), Expr::Value("s".to_owned().into()));
    assert_eq!(Expr::from(false), Expr::Value(false.into()));
}

#[test]
fn map_value_mut_changes_values_only() {
    let mut value: Expr = Num::I(1).into();
    value.map_value_mut(|_| BoxValue::from(true));
    assert_eq!(value, Expr::Value(true.into()));
    let mut reference = Expr::Ref(Position { x: 0, y: 0 });
    reference.map_value_mut(|_| BoxValue::from(true));
    assert_eq!(reference, Expr::Ref(Position { x: 0, y: 0 }));
}

#[test]
fn the_registry_can_be_extended() {
    let mut ops = get_default_op_map();
    assert_eq!(ops.get(&"SUM".to_owned()), Some(Operator::Sum));
    assert_eq!(ops.get(&"EQ".to_owned()), Some(Operator::Equal));
    assert_eq!(ops.get(&"GT".to_owned()), Some(Operator::Greater));
    assert_eq!(ops.get(&"PLUS".to_owned()), None);
    ops.insert("PLUS".to_owned(), Operator::Sum);
    ops.insert("SUM".to_owned(), Operator::Multiply);
    assert_eq!(ops.get(&"PLUS".to_owned()), Some(Operator::Sum));
    assert_eq!(ops.get(&"SUM".to_owned()), Some(Operator::Multiply));
    let mut floats = FloatTable::new();
    let raw = sheet_of(vec![vec![raw_text("=PLUS(2, 3)"), raw_text("=SUM(2, 3)")]]);
    let sheet = load(&raw, &mut floats);
    let sheet = resolve(sheet, &ops, &mut floats);
    assert_eq!(sheet.cells[0], vec![Num::I(5).into(), Num::I(6).into()]);
    assert_eq!(OpMap::new().get(&"SUM".to_owned()), None);
}

#[test]
fn operators_called_directly() {
    let floats = FloatTable::new();
    let args = vec![Num::I(2).into(), Num::I(3).into()];
    assert_eq!(Operator::Sum.invoke(&args, &floats), Ok(Num::I(5).into()));
    assert_eq!(Operator::Multiply.invoke(&args, &floats), Ok(Num::I(6).into()));
    assert_eq!(Operator::Greater.invoke(&args, &floats), Ok(Expr::Value(false.into())));
    assert_eq!(Operator::Sum.arity(), (1, usize::MAX));
    assert_eq!(Operator::Concat.arity(), (0, usize::MAX));
    assert_eq!(Operator::If.arity(), (3, 3));
    let three: Vec<Expr> = vec![Expr::Value(true.into()), Num::I(1).into(), Num::I(2).into()];
    assert_eq!(Operator::Divide.expected(&three, 1), Some(Kind::Number));
    assert_eq!(Operator::Divide.expected(&three, 2), None);
    assert_eq!(Operator::If.expected(&three, 0), Some(Kind::Boolean));
    assert_eq!(Operator::If.expected(&three, 1), None);
    assert_eq!(Operator::If.expected(&three, 2), Some(Kind::Number));
    assert_eq!(Operator::If.expected(&three, 3), None);
    assert_eq!(
        Operator::Divide.invoke(&vec![Num::I(1).into(), double(2.0)], &floats),
        Err(FloatOp::FromInt(0))
    );
}

#[test]
fn numbers_through_the_table() {
    let mut floats = FloatTable::new();
    let two = Num::F(Float { bits: 2.0f64.to_bits() });
    assert_eq!(Num::I(2).sum(Num::I(3), &floats), Ok(Num::I(5)));
    assert_eq!(Num::I(2).product(Num::I(3), &floats), Ok(Num::I(6)));
    assert_eq!(Num::I(7).quotient(Num::I(-7), &floats), Ok(Num::I(-1)));
    assert_eq!(Num::I(2).order(Num::I(3), &floats), Ok(Order::Less));
    assert_eq!(Num::I(2).equals(Num::I(2), &floats), Ok(true));
    assert_eq!(Num::I(3).greater(Num::I(2), &floats), Ok(true));
    assert_eq!(Num::I(2).sum(two, &floats), Err(FloatOp::FromInt(2)));
    assert_eq!(two.to_float(&floats), Ok(Float { bits: 2.0f64.to_bits() }));
    loop {
        match Num::I(2).equals(two, &floats) {
            Ok(same) => {
                assert!(same);
                break;
            }
            Err(op) => {
                let answer = perform(&op);
                floats.insert(op, answer);
            }
        }
    }
    assert_eq!(floats.lookup(&FloatOp::FromInt(2)), Some(2.0f64.to_bits()));
    assert_eq!(floats.ask(FloatOp::FromInt(3)), Err(FloatOp::FromInt(3)));
}

#[test]
fn orders_and_their_codes() {
    for order in [Order::Less, Order::Equal, Order::Greater, Order::Unordered] {
        assert_eq!(Order::from_code(order.code()), order);
    }
    assert_eq!(Order::from_code(0), Order::Less);
    assert_eq!(Order::from_code(1), Order::Equal);
    assert_eq!(Order::from_code(2), Order::Greater);
    assert_eq!(Order::from_code(77), Order::Unordered);
}

#[test]
fn values_by_kind() {
    let floats = FloatTable::new();
    assert_eq!(Scalar::Num(Num::I(1)).kind(), Kind::Number);
    assert_eq!(Scalar::Bool(true).kind(), Kind::Boolean);
    assert_eq!(Scalar::Str("s".to_owned()).kind(), Kind::Text);
    assert_eq!(Num::I(1).into_scalar(), Scalar::Num(Num::I(1)));
    assert_eq!(true.into_scalar(), Scalar::Bool(true));
    assert_eq!("s".to_owned().into_scalar(), Scalar::Str("s".to_owned()));
    assert_eq!(<bool as Value>::downcast_ref(&Scalar::Bool(true)), Some(&true));
    assert_eq!(<Num as Value>::downcast_ref(&Scalar::Bool(true)), None);
    assert_eq!(<String as Value>::downcast_ref(&Scalar::Str("s".to_owned())), Some(&"s".to_owned()));
    assert_eq!(Scalar::Bool(true).equals(&Scalar::Num(Num::I(1)), &floats), Ok(false));
    assert_eq!(
        Scalar::Bool(true).order(&Scalar::Num(Num::I(1)), &floats),
        Ok(Order::Unordered)
    );
    assert_eq!(
        Scalar::Str("a".to_owned()).order(&Scalar::Str("b".to_owned()), &floats),
        Ok(Order::Less)
    );
    assert_eq!(Scalar::Str("a".to_owned()).clone(), Scalar::Str("a".to_owned()));
}

#[test]
fn a_long_chain_of_references() {
    let n = 300usize;
    let mut rows: Vec<Vec<RawCellData>> = Vec::new();
    for i in 0..n {
        rows.push(vec![raw_text(&format!("=SUM(A{}, 1)", i + 2))]);
    }
    rows.push(vec![RawCellData::Int(0)]);
    let cells = cells_of(rows);
    for i in 0..=n {
        assert_eq!(cells[i][0], Num::I((n - i) as i64).into());
    }
}

/// A small generator of numbers: the same every run.
struct Dice(u64);

impl Dice {
    fn roll(&mut self, sides: u64) -> u64 {
        self.0 = self.0.wrapping_mul(6364136223846793005).wrapping_add(1442695040888963407);
        (self.0 >> 33) % sides
    }
}

fn random_reference(dice: &mut Dice) -> String {
    let column = (b'A' + dice.roll(4) as u8) as char;
    format!("{}{}", column, dice.roll(4) + 1)
}

fn random_formula(dice: &mut Dice, depth: u64) -> String {
    match dice.roll(if depth == 0 { 5 } else { 8 }) {
        0 => format!("{}", dice.roll(7)),
        1 => format!("{}.{}", dice.roll(4), dice.roll(10)),
        2 => (if dice.roll(2) == 0 { "true" } else { "false" }).to_owned(),
        3 => format!("\"{}\"", dice.roll(3)),
        4 => random_reference(dice),
        _ => {
            let names =
                ["SUM", "MULTIPLY", "DIVIDE", "GT", "EQ", "NOT", "AND", "OR", "IF", "CONCAT", "X"];
            let name = names[dice.roll(names.len() as u64) as usize];
            let count = dice.roll(4);
            let args: Vec<String> =
                (0..count).map(|_| random_formula(dice, depth - 1)).collect();
            format!("{}({})", name, args.join(", "))
        }
    }
}

fn random_sheet(dice: &mut Dice) -> RawSheet {
    let mut rows = Vec::new();
    for _ in 0..4 {
        let mut row = Vec::new();
        for _ in 0..dice.roll(5) {
            row.push(match dice.roll(6) {
                0 => RawCellData::Int(dice.roll(9) as i64 - 4),
                1 => raw_double(dice.roll(9) as f64 / 4.0),
                _ => raw_text(&format!("={}", random_formula(dice, 2))),
            });
        }
        rows.push(row);
    }
    sheet_of(rows)
}

#[test]
fn rounds_come_to_what_one_pass_comes_to() {
    let ops = get_default_op_map();
    let mut dice = Dice(2024);
    let mut with_doubles = 0;
    let mut with_cycles = 0;
    for _ in 0..400 {
        let raw = random_sheet(&mut dice);
        let mut floats = FloatTable::new();
        let sheet = load(&raw, &mut floats);
        let by_rounds = resolve(sheet, &ops, &mut floats);
        if !floats.facts.is_empty() {
            with_doubles += 1;
        }
        if by_rounds
            .cells
            .iter()
            .flatten()
            .any(|c| c.is_err() && goes_back_to_a_cycle(c.unwrap_err_ref()))
        {
            with_cycles += 1;
        }
        // With every answer at hand, one pass asks for nothing and comes to the same.
        let sheet = Sheet::from_raw(&raw, &floats).unwrap();
        let at_once = sheet.resolve_refs(&ops, &floats);
        assert_eq!(at_once.pending, None);
        assert_eq!(at_once.sheet, by_rounds);
        // And every cell is a value or an error.
        assert!(by_rounds.cells.iter().flatten().all(|c| c.is_terminal()));
        assert_eq!(
            by_rounds.cells.iter().map(|r| r.len()).collect::<Vec<_>>(),
            raw.data.iter().map(|r| r.len()).collect::<Vec<_>>()
        );
    }
    assert!(with_doubles > 100, "{} sheets with doubles", with_doubles);
    assert!(with_cycles > 20, "{} sheets with cycles", with_cycles);
}

#[test]
fn rounds_by_the_library() {
    let ops = get_default_op_map();
    let raw = sheet_of(vec![vec![
        raw_text("=SUM(1, 2.5)"),
        raw_text("=MULTIPLY(A1, 2)"),
        raw_text("=GT(B1, 6.9)"),
        raw_text("=DIVIDE(7, 2)"),
    ]]);
    let mut floats = FloatTable::new();
    let sheet = Sheet::from_raw_in_rounds(&raw, &mut floats, &perform, usize::MAX).unwrap();
    assert_eq!(floats.facts.len(), 2);
    let done = sheet.resolve_in_rounds(&ops, &mut floats, &perform, usize::MAX);
    assert_eq!(done.pending, None);
    assert_eq!(
        done.sheet.cells,
        vec![vec![double(3.5), double(7.0), Expr::Value(true.into()), double(3.5)]]
    );
    assert_eq!(done.sheet, run(raw));
    for fact in &floats.facts {
        assert_eq!(fact.answer, perform(&fact.op));
    }
}

#[test]
fn rounds_within_a_budget() {
    let ops = get_default_op_map();
    let raw = sheet_of(vec![vec![raw_double(0.5), raw_text("=SUM(1, A1)"), raw_text("=B1")]]);
    let mut floats = FloatTable::new();
    let sheet = Sheet::from_raw_in_rounds(&raw, &mut floats, &perform, 0).unwrap();
    assert!(floats.facts.is_empty());

    // Two answers are wanted: the double of 1, and the sum.
    let done = sheet.resolve_in_rounds(&ops, &mut floats, &perform, 1);
    let wanted = FloatOp::Add(Float { bits: 1.0f64.to_bits() }, Float { bits: 0.5f64.to_bits() });
    assert_eq!(done.pending, Some(wanted));
    assert_eq!(floats.facts.len(), 1);
    assert_eq!(done.sheet.cells[0][1], Sheet::from_raw(&raw, &floats).unwrap().cells[0][1]);

    let done = done.sheet.resolve_in_rounds(&ops, &mut floats, &perform, 1);
    assert_eq!(done.pending, None);
    assert_eq!(floats.facts.len(), 2);
    assert_eq!(done.sheet.cells[0], vec![double(0.5), double(1.5), double(1.5)]);

    let literal = sheet_of(vec![vec![raw_text("=SUM(1.5, 2.5)")]]);
    let mut floats = FloatTable::new();
    assert_eq!(
        Sheet::from_raw_in_rounds(&literal, &mut floats, &perform, 1),
        Err(FloatOp::Parse("2.5".to_owned()))
    );
    assert_eq!(floats.facts.len(), 1);
    assert!(Sheet::from_raw_in_rounds(&literal, &mut floats, &perform, 1).is_ok());
}

#[test]
fn every_message_starts_alike() {
    let at = Position { x: 1, y: 2 };
    let errors = vec![
        CellError::ParseError,
        CellError::TypeMismatch("Boolean"),
        CellError::BinaryTypeMismatch,
        CellError::InvalidReference(at),
        CellError::InvalidArgCount(0..=1, 2),
        CellError::NoOpFound("".to_owned()),
        CellError::RefError(Box::new(CellError::ParseError), at),
        CellError::ArgError(0, Box::new(CellError::ArgError(9, Box::new(CellError::DivByZero)))),
        CellError::FormError(vec![CellError::ParseError]),
        CellError::DivByZero,
        CellError::CircularRef,
    ];
    for e in &errors {
        assert!(e.message().starts_with("#ERROR:"), "{}", e.message());
    }
    assert_eq!(
        errors[7].message(),
        "#ERROR: Division by zero [problem with an argument at position: 9] \
         [problem with an argument at position: 0]"
    );
}

#[test]
fn a_variant_with_its_field() {
    let mut out = "so far: ".to_owned();
    write_tagged(&mut out, "NoOpFound", "\"FOO\"");
    assert_eq!(out, "so far: NoOpFound(\"FOO\")");
    let mut out = String::new();
    write_tagged(&mut out, "", "");
    assert_eq!(out, "()");
}
