use chat_core::csvtable::{csv, read_csv};

#[test]
fn read_csv_splits_header_and_data() {
    let table = read_csv("name,age\nalice,30\nbob,7");
    assert_eq!(table.header, vec!["name".to_string(), "age".to_string()]);
    assert_eq!(
        table.data,
        vec!["alice".to_string(), "30".to_string(), "bob".to_string(), "7".to_string()]
    );
}

#[test]
fn read_csv_handles_crlf_and_trailing_newline() {
    let table = read_csv("a,b\r\n1,2\r\n");
    assert_eq!(table.header, vec!["a".to_string(), "b".to_string()]);
    assert_eq!(table.data, vec!["1".to_string(), "2".to_string()]);
}

#[test]
fn read_csv_of_empty_text_is_empty() {
    let table = read_csv("");
    assert!(table.header.is_empty());
    assert!(table.data.is_empty());
}

#[test]
fn render_pads_every_cell_to_the_longest() {
    let table = read_csv("a,b\nx,yy");
    let out = table.render();
    assert_eq!(out, "a   b   \nx   yy  \n");
}

#[test]
fn csv_renders_a_table() {
    let out = csv(&"csv".to_string(), &"a,b\nx,yy".to_string()).unwrap();
    assert_eq!(out, "a   b   \nx   yy  \n");
}

#[test]
fn csv_refuses_a_wrong_command() {
    let err = csv(&"slugify".to_string(), &"a,b\n1,2".to_string()).unwrap_err();
    assert!(err.contains("csv was called"));
}
