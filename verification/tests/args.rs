use openjph_core::args::{parse_point, parse_point_list, parse_size, parse_size_list};
use openjph_core::types::{Point, Size};

#[test]
fn parse_size_accepts_braced_pair() {
    assert_eq!(parse_size("{64,32}"), Ok(Size::new(64, 32)));
    assert_eq!(parse_size("  { 7 , 9 }  "), Ok(Size::new(7, 9)));
    assert_eq!(parse_size("3,4"), Ok(Size::new(3, 4)));
    assert_eq!(parse_size("{{1,2}}"), Ok(Size::new(1, 2)));
    assert_eq!(parse_size("{+5,6}"), Ok(Size::new(5, 6)));
}

#[test]
fn parse_size_refuses_other_shapes() {
    assert_eq!(parse_size("{64}"), Err("Expected {w,h}, got '64'".to_string()));
    assert_eq!(parse_size("{1,2,3}"), Err("Expected {w,h}, got '1,2,3'".to_string()));
    assert_eq!(parse_size("{a,2}"), Err("invalid digit found in string".to_string()));
    assert_eq!(parse_size("{,2}"), Err("cannot parse integer from empty string".to_string()));
    assert_eq!(parse_size("{1,4294967296}"), Err("number too large to fit in target type".to_string()));
    assert_eq!(parse_size("{-1,2}"), Err("invalid digit found in string".to_string()));
}

#[test]
fn parse_point_accepts_braced_pair() {
    assert_eq!(parse_point("{0,0}"), Ok(Point::new(0, 0)));
    assert_eq!(parse_point("{4294967295,1}"), Ok(Point::new(4294967295, 1)));
    assert_eq!(parse_point("{1 2}"), Err("Expected {x,y}, got '1 2'".to_string()));
}

#[test]
fn parse_size_list_reads_each_pair() {
    assert_eq!(
        parse_size_list("{256,256},{128,128}"),
        Ok(vec![Size::new(256, 256), Size::new(128, 128)])
    );
    assert_eq!(parse_size_list("{1,2}"), Ok(vec![Size::new(1, 2)]));
    assert_eq!(parse_size_list(""), Err("Expected {w,h} list, got ''".to_string()));
    assert_eq!(parse_size_list("{1,x}"), Err("invalid digit found in string".to_string()));
}

#[test]
fn parse_point_list_reads_each_pair() {
    assert_eq!(
        parse_point_list("{1,2}, {3,4},{5,6}"),
        Ok(vec![Point::new(1, 2), Point::new(3, 4), Point::new(5, 6)])
    );
    assert_eq!(parse_point_list("1,2"), Err("Expected {x,y} list, got '1,2'".to_string()));
}
