use micromouse_wasm::maze::{shape_lines, shape_maze_string, GRID_ROWS, N};

fn default_wall() -> String {
    format!("{}+", "+---".repeat(N))
}

fn default_cell() -> String {
    format!("{}|", "|   ".repeat(N))
}

#[test]
fn empty_description_gives_default_grid() {
    let out = shape_maze_string("").unwrap();
    let rows: Vec<&str> = out.lines().collect();
    assert_eq!(rows.len(), GRID_ROWS);
    assert_eq!(rows.len(), 2 * N + 1);
    for (i, row) in rows.iter().enumerate() {
        assert_eq!(row.len(), 4 * N + 1);
        if i % 2 == 0 {
            assert_eq!(*row, default_wall());
        } else {
            assert_eq!(*row, default_cell());
        }
    }
    assert!(out.ends_with('\n'));
    assert_eq!(out.len(), GRID_ROWS * (4 * N + 2));
}

#[test]
fn one_cell_description_fills_the_last_rows() {
    let out = shape_maze_string("+---+\n|   |\n+---+").unwrap();
    let rows: Vec<&str> = out.lines().collect();
    assert_eq!(rows.len(), 65);
    assert_eq!(rows[61], default_cell());
    assert_eq!(rows[62], format!("+---+{}", "---+".repeat(31)));
    assert_eq!(rows[63], format!("|   |{}", "   |".repeat(31)));
    assert_eq!(rows[64], format!("+---+{}", "---+".repeat(31)));
    for row in rows {
        assert_eq!(row.len(), 129);
    }
}

#[test]
fn given_lines_are_kept_verbatim() {
    let input = "+---+---+\n|       |\n+   +---+\n| x |   |\n+---+---+";
    let out = shape_maze_string(input).unwrap();
    let rows: Vec<&str> = out.lines().collect();
    let given: Vec<&str> = input.lines().collect();
    for (j, line) in given.iter().enumerate() {
        let r = 65 - given.len() + j;
        let row = rows[r];
        assert!(row.starts_with(line));
        let unit = if r % 2 == 0 { "---+" } else { "   |" };
        assert_eq!(&row[line.len()..], unit.repeat(30));
    }
}

#[test]
fn carriage_returns_end_lines() {
    let out = shape_maze_string("+---+\r\n|   |\r\n+---+\r\n").unwrap();
    let plain = shape_maze_string("+---+\n|   |\n+---+").unwrap();
    assert_eq!(out, plain);
}

#[test]
fn full_grid_is_unchanged() {
    let grid = shape_maze_string("").unwrap();
    assert_eq!(shape_maze_string(&grid).unwrap(), grid);
}

#[test]
fn too_many_lines_are_refused() {
    let input = vec!["+"; 66].join("\n");
    assert_eq!(shape_maze_string(&input), None);
    let input = vec!["+"; 65].join("\n");
    assert!(shape_maze_string(&input).is_some());
}

#[test]
fn shape_lines_pads_by_grid_row() {
    let lines = vec!["+".to_string(), "|".to_string()];
    let out = shape_lines(&lines);
    let rows: Vec<&str> = out.lines().collect();
    assert_eq!(rows.len(), 65);
    assert_eq!(rows[63], format!("+{}", "   |".repeat(31)));
    assert_eq!(rows[64], format!("|{}", "---+".repeat(31)));
}

#[test]
fn even_line_count_pads_by_grid_row() {
    let out = shape_maze_string("|   |\n+---+").unwrap();
    let mut expected = String::new();
    for _ in 0..32 {
        expected.push_str(&default_wall());
        expected.push('\n');
        expected.push_str(&default_cell());
        expected.push('\n');
    }
    expected.push_str(&default_wall());
    expected.push('\n');
    assert_eq!(out, expected);
}

#[test]
fn bare_carriage_return_stays_in_its_line() {
    let out = shape_maze_string("+\r+\n|").unwrap();
    let rows: Vec<&str> = out.split('\n').collect();
    assert_eq!(rows[63], format!("+\r+{}", "   |".repeat(31)));
    assert_eq!(rows[64], format!("|{}", "---+".repeat(31)));
}
