use std::collections::BTreeMap;

use csv_columns::parse::parse;

const SAMPLE: &str = "year,make,model,description
1948,Porsche,356,Luxury sports car
1967,Ford,Mustang fastback 1967,American car";

/// Reads `text` with a plain `csv::Reader` into a sorted map, cell by cell.
fn through_a_sorted_map(text: &str) -> BTreeMap<String, Vec<Option<i64>>> {
    let mut reader = csv::Reader::from_reader(text.as_bytes());
    let mut map: BTreeMap<String, Vec<Option<i64>>> = BTreeMap::new();
    let mut names: Vec<String> = Vec::new();
    for name in reader.headers().unwrap().iter() {
        map.insert(name.to_string(), Vec::new());
        names.push(name.to_string());
    }
    for record in reader.records() {
        let record = record.unwrap();
        for (place, cell) in record.iter().enumerate() {
            let value = cell.parse::<i64>().ok();
            map.entry(names[place].clone()).and_modify(|column| column.push(value));
        }
    }
    map
}

fn as_a_sorted_map(text: &str) -> BTreeMap<String, Vec<Option<i64>>> {
    let table = parse(text.as_bytes()).unwrap();
    let mut map: BTreeMap<String, Vec<Option<i64>>> = BTreeMap::new();
    let mut names: Vec<String> = Vec::new();
    for i in 0..table.len() {
        names.push(table.name(i).to_string());
        map.insert(table.name(i).to_string(), table.column(i).clone());
    }
    let in_map_order: Vec<String> = map.keys().cloned().collect();
    assert_eq!(names, in_map_order);
    map
}

#[test]
fn tables_agree_with_a_sorted_map_filled_from_a_csv_reader() {
    let texts = [
        SAMPLE,
        "a\n",
        "a,b\n1,2\n",
        "b,a\r\n1,2\r\n-3,+4\r\n",
        "z,y,x\n1,,3\n,,\n007,-0,9223372036854775808\n",
        "\"a,b\",\"c\"\"d\"\n\"1\",\" 2\"\n\"3\n\",4\n",
        "a,b,a\n1,2,3\n4,5,6\n",
        "\u{feff}n,m\n1,2\n",
        "\u{e9},e,\u{20ac}\n1,2,3\n",
        "a\n\n\n1\n\n2\n",
        "x\"y,z\n1\",\"2\"\n",
    ];
    for text in texts {
        assert_eq!(as_a_sorted_map(text), through_a_sorted_map(text), "{text:?}");
    }
}
