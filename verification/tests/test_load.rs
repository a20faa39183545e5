use pts_loader::batch::{buffer_capacity, Loader, Step};
use pts_loader::load::{
    build_record, parse_header, parse_record, split_fields, Field, LoadError,
};
use rayon::iter::{IndexedParallelIterator, IntoParallelRefIterator, ParallelIterator};
use pts_loader::{PtsPoint, Vec3};

fn take_line<'a>(rest: &mut &'a str) -> &'a str {
    let text: &'a str = *rest;
    let end = match text.find('\n') {
        Some(i) => i + 1,
        None => text.len(),
    };
    let (line, tail) = text.split_at(end);
    *rest = tail;
    line
}

fn decode(tokens: &[&str], n: usize) -> Option<u32> {
    tokens
        .get(n)
        .and_then(|t| t.parse::<f32>().ok())
        .map(f32::to_bits)
}

fn read_record(line_no: usize, line: &str) -> Result<PtsPoint, LoadError> {
    let tokens = split_fields(line);
    let x = decode(&tokens, 0);
    let y = decode(&tokens, 1);
    let z = decode(&tokens, 2);
    build_record(line_no, &tokens, x, y, z)
}

fn load_text(path: &str, text: &str) -> Result<Vec<PtsPoint>, LoadError> {
    let capacity = buffer_capacity(text.len() as u64);
    let mut rest = text;
    let header = take_line(&mut rest);
    let declared = parse_header(path, header)?;
    let mut loader = Loader::new(declared, capacity);
    let mut batch = vec![String::new(); loader.slots()];
    loop {
        match loader.next_step() {
            Step::ReadLine { slot } => {
                batch[slot].clear();
                let line = take_line(&mut rest);
                batch[slot].push_str(line);
                loader.line_read(line.len());
            }
            Step::ParseBatch { filled } => {
                let results = batch[..filled]
                    .iter()
                    .enumerate()
                    .map(|(i, line)| read_record(loader.line_number(i), line))
                    .collect();
                loader.batch_parsed(results);
            }
            Step::Finish => return loader.finish(),
        }
    }
}

fn point(x: f32, y: f32, z: f32, intensity: i32, r: u8, g: u8, b: u8) -> PtsPoint {
    PtsPoint {
        point: Vec3::<u32> {
            x: x.to_bits(),
            y: y.to_bits(),
            z: z.to_bits(),
        },
        intensity,
        rgb: Vec3::<u8> { x: r, y: g, z: b },
    }
}

const ROW: &str = "-0.41025 -2.0806 8.00981 55 52 44 65\n";

#[test]
fn load_valid_file() {
    let mut text = String::from("8\n");
    for _ in 0..8 {
        text.push_str(ROW);
    }
    let points = load_text("tests/fixtures/valid.pts", &text);
    let expect = vec![
        PtsPoint {
            point: Vec3::<u32> {
                x: (-0.41025f32).to_bits(),
                y: (-2.0806f32).to_bits(),
                z: (8.00981f32).to_bits(),
            },
            intensity: 55,
            rgb: Vec3::<u8> {
                x: 52,
                y: 44,
                z: 65,
            },
        };
        8
    ];
    let points = points.unwrap();
    assert_eq!(expect.len(), points.len());
    assert_eq!(expect, points);
}

#[test]
fn load_no_header_file() {
    let path = "tests/fixtures/invalid_no_header.pts";
    let mut text = String::new();
    for _ in 0..8 {
        text.push_str(ROW);
    }
    let points = load_text(path, &text);
    match points {
        Ok(_) => panic!("Read invalid file as valid"),
        Err(e) => {
            assert_eq!(
                "Couldn't find row count in first line of tests/fixtures/invalid_no_header.pts, got -0.41025 -2.0806 8.00981 55 52 44 65",
                e.message()
            );
        }
    }
}

#[test]
fn load_invalid_row_file() {
    let path = "tests/fixtures/invalid_row.pts";
    let mut text = String::from("8\n");
    for _ in 0..3 {
        text.push_str(ROW);
    }
    text.push_str("-0.41025 -2.0806 8.00981 55 52 44\n");
    for _ in 0..4 {
        text.push_str(ROW);
    }
    let points = load_text(path, &text);

    match points {
        Ok(_) => panic!("Read invalid file as valid"),
        Err(e) => {
            assert_eq!("No B color value", e.message());
        }
    }
}

#[test]
fn load_non_existent_file() {
    let path = "tests/fixtures/no_such.pts";
    let e = LoadError::io(path);
    assert_eq!(
        LoadError::Io {
            path: String::from(path)
        },
        e
    );
    assert_eq!(
        "Failed to load file tests/fixtures/no_such.pts",
        e.message()
    );
}

#[test]
fn two_records_in_file_order() {
    let text = "2\n1.0 2.0 3.0 10 255 0 0\n4.0 5.0 6.0 20 0 255 0\n";
    let points = load_text("two.pts", text).unwrap();
    assert_eq!(
        vec![
            point(1.0, 2.0, 3.0, 10, 255, 0, 0),
            point(4.0, 5.0, 6.0, 20, 0, 255, 0)
        ],
        points
    );
}

#[test]
fn missing_blue_channel() {
    let text = "1\n1.0 2.0 3.0 10 255 0\n";
    let e = load_text("one.pts", text).unwrap_err();
    assert_eq!(
        LoadError::MissingField {
            line: 2,
            field: Field::B
        },
        e
    );
    assert_eq!("No B color value", e.message());
}

#[test]
fn count_equal_to_lines_gives_all_records() {
    let mut text = String::from("40\n");
    let mut expect = Vec::new();
    for i in 0..40u8 {
        text.push_str(&format!("{}.5 -{}.25 0.125 {} {} 0 255\n", i, i, -(i as i32), i));
        expect.push(point(
            i as f32 + 0.5,
            -(i as f32) - 0.25,
            0.125,
            -(i as i32),
            i,
            0,
            255,
        ));
    }
    assert_eq!(Ok(expect), load_text("forty.pts", &text));
}

#[test]
fn last_line_without_terminator() {
    let text = "1\n1.5 2.5 3.5 -7 1 2 3";
    assert_eq!(
        Ok(vec![point(1.5, 2.5, 3.5, -7, 1, 2, 3)]),
        load_text("p.pts", text)
    );
}

#[test]
fn carriage_returns_are_taken_off() {
    let text = "2\r\n1.5 2.5 3.5 -7 1 2 3\r\n0 0 0 0 0 0 0\r\n";
    assert_eq!(
        Ok(vec![
            point(1.5, 2.5, 3.5, -7, 1, 2, 3),
            point(0.0, 0.0, 0.0, 0, 0, 0, 0)
        ]),
        load_text("p.pts", text)
    );
}

#[test]
fn header_with_white_space_around() {
    assert_eq!(Ok(12), parse_header("p.pts", "  \t12 \r\n"));
    assert_eq!(Ok(7), parse_header("p.pts", "\u{a0}+7\u{2003}\n"));
    assert_eq!(Ok(0), parse_header("p.pts", "0"));
}

#[test]
fn header_without_count() {
    assert_eq!(
        Err(LoadError::Header {
            path: String::from("p.pts"),
            raw: String::new()
        }),
        parse_header("p.pts", "")
    );
    assert_eq!(
        Err(LoadError::Header {
            path: String::from("p.pts"),
            raw: String::from("1 2")
        }),
        parse_header("p.pts", " 1 2 \n")
    );
    assert_eq!(
        Err(LoadError::Header {
            path: String::from("p.pts"),
            raw: String::from("-3")
        }),
        parse_header("p.pts", "-3\n")
    );
    assert_eq!(
        Err(LoadError::Header {
            path: String::from("p.pts"),
            raw: String::from("99999999999999999999999999")
        }),
        parse_header("p.pts", "99999999999999999999999999\n")
    );
}

#[test]
fn header_message_holds_raw_text() {
    let e = parse_header("cloud.pts", " x12 \n").unwrap_err();
    assert_eq!(
        "Couldn't find row count in first line of cloud.pts, got x12",
        e.message()
    );
}

#[test]
fn empty_document_fails_on_header() {
    assert_eq!(
        Err(LoadError::Header {
            path: String::from("empty.pts"),
            raw: String::new()
        }),
        load_text("empty.pts", "")
    );
}

#[test]
fn no_records_declared() {
    assert_eq!(Ok(Vec::new()), load_text("p.pts", "0\n"));
    assert_eq!(Ok(Vec::new()), load_text("p.pts", "0\nnot read at all\n"));
}

#[test]
fn each_missing_field_is_named() {
    let fields = [
        (Field::Y, "1", "No y coordinate"),
        (Field::Z, "1 2", "No z coordinate"),
        (Field::Intensity, "1 2 3", "No intensity value"),
        (Field::R, "1 2 3 4", "No R color value"),
        (Field::G, "1 2 3 4 5", "No G color value"),
        (Field::B, "1 2 3 4 5 6", "No B color value"),
    ];
    for (field, line, message) in fields {
        let e = read_record(9, line).unwrap_err();
        assert_eq!(LoadError::MissingField { line: 9, field }, e);
        assert_eq!(message, e.message());
    }
    let none: Vec<&str> = Vec::new();
    let e = build_record(3, &none, None, None, None).unwrap_err();
    assert_eq!(
        LoadError::MissingField {
            line: 3,
            field: Field::X
        },
        e
    );
    assert_eq!("No x coordinate", e.message());
}

#[test]
fn each_invalid_field_is_named_with_its_text() {
    let fields = [
        (Field::X, "a 2 3 4 5 6 7", "a", "Invalid x coordinate: a"),
        (Field::Y, "1 b 3 4 5 6 7", "b", "Invalid y coordinate: b"),
        (Field::Z, "1 2 1,5 4 5 6 7", "1,5", "Invalid z coordinate: 1,5"),
        (
            Field::Intensity,
            "1 2 3 4.5 5 6 7",
            "4.5",
            "Invalid intensity value: 4.5",
        ),
        (Field::R, "1 2 3 4 256 6 7", "256", "Invalid R color value: 256"),
        (Field::G, "1 2 3 4 5 -1 7", "-1", "Invalid G color value: -1"),
        (Field::B, "1 2 3 4 5 6 0x7", "0x7", "Invalid B color value: 0x7"),
    ];
    for (field, line, token, message) in fields {
        let e = read_record(5, line).unwrap_err();
        assert_eq!(
            LoadError::NumericParse {
                line: 5,
                field,
                token: String::from(token)
            },
            e
        );
        assert_eq!(message, e.message());
    }
}

#[test]
fn empty_line_fails_on_its_first_field() {
    assert_eq!(
        Err(LoadError::NumericParse {
            line: 2,
            field: Field::X,
            token: String::new()
        }),
        read_record(2, "\n")
    );
}

#[test]
fn invalid_field_comes_before_a_missing_one() {
    assert_eq!(
        Err(LoadError::NumericParse {
            line: 2,
            field: Field::X,
            token: String::from("abc")
        }),
        read_record(2, "abc 2 3\n")
    );
}

#[test]
fn two_spaces_hold_an_empty_field() {
    assert_eq!(
        Err(LoadError::NumericParse {
            line: 4,
            field: Field::Intensity,
            token: String::new()
        }),
        read_record(4, "1 2 3  4 5 6 7\n")
    );
    assert_eq!(
        Err(LoadError::NumericParse {
            line: 4,
            field: Field::X,
            token: String::new()
        }),
        read_record(4, " 1 2 3 4 5 6 7\n")
    );
}

#[test]
fn what_follows_the_seventh_field_is_left_out() {
    assert_eq!(
        Ok(point(1.0, 2.0, 3.0, 4, 5, 6, 7)),
        read_record(2, "1 2 3 4 5 6 7 8 nine \u{e9}\n")
    );
    assert_eq!(
        Ok(point(1.0, 2.0, 3.0, 4, 5, 6, 7)),
        read_record(2, "1 2 3 4 5 6 7 \n")
    );
}

#[test]
fn text_outside_ascii_is_read_by_characters() {
    assert_eq!(
        Err(LoadError::NumericParse {
            line: 2,
            field: Field::G,
            token: String::from("\u{e9}6")
        }),
        read_record(2, "1 2 3 4 5 \u{e9}6 7\n")
    );
    assert_eq!(
        vec!["\u{e9}", "b\u{4e16}", "", "c"],
        split_fields("\u{e9} b\u{4e16}  c\r\n")
    );
}

#[test]
fn decoded_position_is_kept_as_given() {
    let tokens = vec!["1", "2", "3", "-4", "5", "6", "7"];
    assert_eq!(
        Ok(PtsPoint {
            point: Vec3::<u32> {
                x: 11,
                y: 22,
                z: 33
            },
            intensity: -4,
            rgb: Vec3::<u8> { x: 5, y: 6, z: 7 },
        }),
        build_record(2, &tokens, Some(11), Some(22), Some(33))
    );
}

#[test]
fn failure_in_a_later_line_gives_no_records() {
    let text = "3\n1 2 3 4 5 6 7\n1 2 3 4 5 6 7\n1 2 3 99999999999 5 6 7\n";
    assert_eq!(
        Err(LoadError::NumericParse {
            line: 4,
            field: Field::Intensity,
            token: String::from("99999999999")
        }),
        load_text("p.pts", text)
    );
}

#[test]
fn first_failure_in_line_order_is_kept() {
    let text = "4\n1 2 3 4 5 6 7\n1 2 3 4 5 6\n1 2 3 4 5 6 700\n1 2\n";
    assert_eq!(
        Err(LoadError::MissingField {
            line: 3,
            field: Field::B
        }),
        load_text("p.pts", text)
    );
}

#[test]
fn fewer_lines_than_declared() {
    let text = "3\n1 2 3 4 5 6 7\n1 2 3 4 5 6 7\n";
    let e = load_text("p.pts", text).unwrap_err();
    assert_eq!(
        LoadError::Truncated {
            declared: 3,
            found: 2
        },
        e
    );
    assert_eq!("Fewer rows than the first line declares", e.message());
    assert_eq!(
        Err(LoadError::Truncated {
            declared: 1,
            found: 0
        }),
        load_text("p.pts", "1\n")
    );
}

#[test]
fn records_round_trip_through_text() {
    let records = vec![
        point(-0.41025, -2.0806, 8.00981, 55, 52, 44, 65),
        point(1.0e-20, 3.4028235e38, -0.0, i32::MIN, 0, 255, 1),
        point(16777217.0, 0.1, 1.17549435e-38, i32::MAX, 9, 99, 199),
    ];
    let mut text = format!("{}\n", records.len());
    for p in &records {
        text.push_str(&format!(
            "{} {} {} {} {} {} {}\n",
            f32::from_bits(p.point.x),
            f32::from_bits(p.point.y),
            f32::from_bits(p.point.z),
            p.intensity,
            p.rgb.x,
            p.rgb.y,
            p.rgb.z
        ));
    }
    assert_eq!(Ok(records), load_text("p.pts", &text));
}

#[test]
fn record_of_a_whole_line() {
    let bits = |v: f32| Some(v.to_bits());
    assert_eq!(
        Ok(point(1.5, -2.0, 0.25, 10, 255, 0, 1)),
        parse_record(2, "1.5 -2.0 0.25 10 255 0 1\n", bits(1.5), bits(-2.0), bits(0.25))
    );
    assert_eq!(
        Err(LoadError::NumericParse {
            line: 8,
            field: Field::Y,
            token: String::from("two")
        }),
        parse_record(8, "1.5 two 0.25 10 255 0 1\n", bits(1.5), None, bits(0.25))
    );
    assert_eq!(
        Err(LoadError::MissingField {
            line: 8,
            field: Field::Z
        }),
        parse_record(8, "1.5 2", bits(1.5), bits(2.0), None)
    );
}

#[test]
fn fields_of_a_line() {
    assert_eq!(vec!["a", "b", "c"], split_fields("a b c\n"));
    assert_eq!(vec!["a", "b", "c"], split_fields("a b c"));
    assert_eq!(vec!["a", "b", "c\t"], split_fields("a b c\t\r\n"));
    assert_eq!(vec![""], split_fields(""));
    assert_eq!(vec![""], split_fields("\r\n"));
    assert_eq!(vec!["", ""], split_fields(" \n"));
    assert_eq!(vec!["a\n"], split_fields("a\n\n"));
    assert_eq!(
        vec!["1", "2", "3", "4", "5", "6", "7"],
        split_fields("1 2 3 4 5 6 7 8 9 10\n")
    );
}

#[test]
fn lines_read_on_several_threads_keep_their_order() {
    let lines: Vec<String> = (0..2000)
        .map(|i| format!("{}.5 0 0 {} {} 0 0\n", i, i, i % 256))
        .collect();
    let results: Vec<Result<PtsPoint, LoadError>> = lines
        .par_iter()
        .take(1500)
        .enumerate()
        .map(|(i, line)| read_record(i + 2, line))
        .collect();
    let mut loader = Loader::new(1500, 1 << 20);
    for line in lines.iter().take(1500) {
        loader.line_read(line.len());
    }
    loader.line_read(0);
    assert_eq!(Step::ParseBatch { filled: 1500 }, loader.next_step());
    loader.batch_parsed(results);
    let points = loader.finish().unwrap();
    assert_eq!(1500, points.len());
    for (i, p) in points.iter().enumerate() {
        assert_eq!(point(i as f32 + 0.5, 0.0, 0.0, i as i32, (i % 256) as u8, 0, 0), *p);
    }
}
