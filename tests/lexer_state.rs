use ox_content::lexer_state::LexerState;

#[test]
fn lexer_state_tracks_lines_and_indent() {
    let mut st = LexerState::new();
    assert_eq!((st.line, st.column, st.at_line_start, st.indent), (1, 1, true, 0));
    st.advance("ab\n \tc");
    assert_eq!(st.line, 2);
    assert_eq!(st.column, 4);
    assert!(!st.at_line_start);
    assert_eq!(st.indent, 5);
    st.advance("\n  ");
    assert_eq!((st.line, st.column, st.at_line_start, st.indent), (3, 3, true, 2));
}
