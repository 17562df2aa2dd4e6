//! The camera location codes and the place each one names.
use vstd::prelude::*;

verus! {

/// Every known location code with the place it names; no code occurs twice.
pub open spec fn location_table() -> Seq<(Seq<char>, Seq<char>)> {
    seq![
        ("MC100"@, "Tammela, canopy"@),
        ("MC101"@, "Tammela, ground"@),
        ("MC102"@, "Tammela, crown"@),
        ("MC103"@, "Punkaharju, ground"@),
        ("MC104"@, "Punkaharju, crown"@),
        ("MC105"@, "Punkaharju, landscape"@),
        ("MC106"@, "Hyytiälä, crown"@),
        ("MC107"@, "Hyytiälä, ground"@),
        ("MC108"@, "Sodankylä, forest, canopy"@),
        ("MC109"@, "Sodankylä, forest, crown"@),
        ("MC110"@, "Sodankylä, forest, ground"@),
        ("MC111"@, "Sodankylä, wetland, ground"@),
        ("MC112"@, "Parkano, landscape"@),
        ("MC113"@, "Suonenjoki, canopy"@),
        ("MC114"@, "Kenttärova, canopy"@),
        ("MC115"@, "Kenttärova, crown"@),
        ("MC116"@, "Kenttärova, ground"@),
        ("MC117"@, "Paljakka, landscape"@),
        ("MC118"@, "Paljakka, landscape"@),
        ("MC117-1"@, "Paljakka, landscape"@),
        ("MC119"@, "Värriö, canopy"@),
        ("MC120"@, "Värriö, crown"@),
        ("MC121"@, "Värriö, ground"@),
        ("MC122"@, "Lammi, crown"@),
        ("MC123"@, "Lammi, crown"@),
        ("MC124"@, "Lammi, landscape"@),
        ("MC125"@, "Lammi, landscape"@),
        ("MC126"@, "Lammi, ground"@),
        ("MC127"@, "Lammi, ground"@),
        ("MC128"@, "Kaamanen, ground"@),
        ("MC129"@, "Lompolojänkkä, ground"@),
        ("MC130"@, "Tvärminne, landscape"@),
        ("MC131"@, "Jokioinen, landscape"@),
    ]
}

pub open spec fn pair_view(p: (String, String)) -> (Seq<char>, Seq<char>) {
    (p.0@, p.1@)
}

/// The place named by the first entry whose code is `code`.
pub open spec fn lookup(table: Seq<(Seq<char>, Seq<char>)>, code: Seq<char>) -> Option<Seq<char>>
    decreases table.len(),
{
    if table.len() == 0 {
        None
    } else if table[0].0 == code {
        Some(table[0].1)
    } else {
        lookup(table.drop_first(), code)
    }
}

fn entry(code: &str, name: &str) -> (r: (String, String))
    ensures
        pair_view(r) == (code@, name@),
{
    (code.to_string(), name.to_string())
}

/// The table of location codes, in a fixed order.
pub fn location_map() -> (r: Vec<(String, String)>)
    ensures
        r@.map_values(|p: (String, String)| pair_view(p)) == location_table(),
{
    let mut map: Vec<(String, String)> = Vec::new();
    map.push(entry("MC100", "Tammela, canopy"));
    map.push(entry("MC101", "Tammela, ground"));
    map.push(entry("MC102", "Tammela, crown"));
    map.push(entry("MC103", "Punkaharju, ground"));
    map.push(entry("MC104", "Punkaharju, crown"));
    map.push(entry("MC105", "Punkaharju, landscape"));
    map.push(entry("MC106", "Hyytiälä, crown"));
    map.push(entry("MC107", "Hyytiälä, ground"));
    map.push(entry("MC108", "Sodankylä, forest, canopy"));
    map.push(entry("MC109", "Sodankylä, forest, crown"));
    map.push(entry("MC110", "Sodankylä, forest, ground"));
    map.push(entry("MC111", "Sodankylä, wetland, ground"));
    map.push(entry("MC112", "Parkano, landscape"));
    map.push(entry("MC113", "Suonenjoki, canopy"));
    map.push(entry("MC114", "Kenttärova, canopy"));
    map.push(entry("MC115", "Kenttärova, crown"));
    map.push(entry("MC116", "Kenttärova, ground"));
    map.push(entry("MC117", "Paljakka, landscape"));
    map.push(entry("MC118", "Paljakka, landscape"));
    map.push(entry("MC117-1", "Paljakka, landscape"));
    map.push(entry("MC119", "Värriö, canopy"));
    map.push(entry("MC120", "Värriö, crown"));
    map.push(entry("MC121", "Värriö, ground"));
    map.push(entry("MC122", "Lammi, crown"));
    map.push(entry("MC123", "Lammi, crown"));
    map.push(entry("MC124", "Lammi, landscape"));
    map.push(entry("MC125", "Lammi, landscape"));
    map.push(entry("MC126", "Lammi, ground"));
    map.push(entry("MC127", "Lammi, ground"));
    map.push(entry("MC128", "Kaamanen, ground"));
    map.push(entry("MC129", "Lompolojänkkä, ground"));
    map.push(entry("MC130", "Tvärminne, landscape"));
    map.push(entry("MC131", "Jokioinen, landscape"));
    assert(map@.map_values(|p: (String, String)| pair_view(p)) =~= location_table());
    map
}

/// The place that `code` names in `map`, if any.
pub fn find_location(map: &Vec<(String, String)>, code: &str) -> (r: Option<String>)
    ensures
        match r {
            Some(n) => lookup(map@.map_values(|p: (String, String)| pair_view(p)), code@) == Some(
                n@,
            ),
            None => lookup(map@.map_values(|p: (String, String)| pair_view(p)), code@) is None,
        },
{
    let key = code.to_string();
    let ghost table = map@.map_values(|p: (String, String)| pair_view(p));
    let mut i: usize = 0;
    assert(table.subrange(0, table.len() as int) =~= table);
    while i < map.len()
        invariant
            i <= map@.len(),
            key@ == code@,
            table == map@.map_values(|p: (String, String)| pair_view(p)),
            lookup(table, code@) == lookup(table.subrange(i as int, table.len() as int), code@),
        decreases map@.len() - i,
    {
        let ghost rest = table.subrange(i as int, table.len() as int);
        assert(rest.drop_first() =~= table.subrange(i + 1, table.len() as int));
        assert(rest[0] == pair_view(map@[i as int]));
        if map[i].0 == key {
            return Some(map[i].1.clone());
        }
        i = i + 1;
    }
    None
}

} // verus!
