use reichtum::data_types::{Color, Noble};
use reichtum::loader::{
    card_from_fields, cards_from_csv, cards_from_records, nobles_from_csv, parse_byte,
    parse_color, LoadError,
};

#[test]
fn load_cards_from_csv() {
    let cards = cards_from_csv(
        "level,color,vp,cost\n\
         1,black,0,1,1,1,1,0\n\
         1,black,0,1,2,1,1,0",
    )
    .unwrap();
    assert_eq!(cards.len(), 2);
}

#[test]
fn load_nobles_from_csv() {
    let nobles = nobles_from_csv(
        "vp,cost\n\
        3,0,0,4,4,0\n\
        3,3,0,0,3,3\n\
        3,4,4,0,0,0",
    )
    .unwrap();
    assert_eq!(nobles.len(), 3);
}

#[test]
fn card_rows_keep_their_values() {
    let cards = cards_from_csv("level,color,vp,cost\n2,green,3,0,5,0x3,+2,1\n").unwrap();
    assert_eq!(cards[0].level, 2);
    assert_eq!(cards[0].color, Color::Green);
    assert_eq!(cards[0].vp, 3);
    assert_eq!(cards[0].cost, [0, 5, 3, 2, 1]);
    let nobles = nobles_from_csv("vp,cost\n3,0,0,4,4,0\n").unwrap();
    assert_eq!(nobles, vec![Noble { vp: 3, cost: [0, 0, 4, 4, 0] }]);
}

#[test]
fn bad_rows_are_refused() {
    assert_eq!(
        cards_from_csv("level,color,vp,cost\n1,purple,0,1,1,1,1,0\n"),
        Err(LoadError::BadRow)
    );
    assert_eq!(
        cards_from_csv("level,color,vp,cost\n1,red,0,1,1,1,1\n"),
        Err(LoadError::BadRow)
    );
    assert_eq!(
        nobles_from_csv("vp,cost\n3,0,0,256,4,0\n"),
        Err(LoadError::BadRow)
    );
    assert_eq!(cards_from_csv("level,color,vp,cost\n").unwrap().len(), 0);
}

#[test]
fn byte_fields() {
    assert_eq!(parse_byte("0"), Some(0));
    assert_eq!(parse_byte("255"), Some(255));
    assert_eq!(parse_byte("256"), None);
    assert_eq!(parse_byte("+7"), Some(7));
    assert_eq!(parse_byte("0xff"), Some(255));
    assert_eq!(parse_byte("0x1G"), None);
    assert_eq!(parse_byte(""), None);
    assert_eq!(parse_byte("+"), None);
    assert_eq!(parse_byte(" 1"), None);
    assert_eq!(parse_byte("-1"), None);
}

#[test]
fn color_names() {
    assert_eq!(parse_color("white"), Some(Color::White));
    assert_eq!(parse_color("black"), Some(Color::Black));
    assert_eq!(parse_color("gold"), Some(Color::Gold));
    assert_eq!(parse_color("White"), None);
    assert_eq!(parse_color("blu"), None);
}

#[test]
fn records_are_read_row_by_row() {
    let row = |fs: &[&str]| fs.iter().map(|s| s.to_string()).collect::<Vec<String>>();
    let good = row(&["3", "red", "4", "0", "0", "7", "3", "3"]);
    let card = card_from_fields(&good).unwrap();
    assert_eq!(card.color, Color::Red);
    assert_eq!(card.cost, [0, 0, 7, 3, 3]);
    let bad = row(&["3", "red", "x", "0", "0", "7", "3", "3"]);
    assert!(cards_from_records(&vec![good.clone(), bad]).is_none());
    assert_eq!(cards_from_records(&vec![good.clone(), good]).unwrap().len(), 2);
}
