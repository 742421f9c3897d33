use constructivism::chain::Instance;
use constructivism::errors::ConstructError;
use constructivism::nest::{flatten, strip, Nested};
use constructivism::props::{
    tuple_get, NothingGetters, NothingProps, NothingSetters, Prop, Props, Singleton,
};
use constructivism::value::{Entry, Value};

fn entry(name: &str, value: Value) -> Entry {
    Entry { name: name.to_string(), value }
}

fn vec2(x: i64, y: i64) -> Instance {
    Instance {
        name: "Vec2".to_string(),
        entries: vec![entry("x", Value::Int(x)), entry("y", Value::Int(y))],
    }
}

fn follow() -> Instance {
    Instance {
        name: "Follow".to_string(),
        entries: vec![
            entry("target", Value::Int(9)),
            entry("offset", Value::Obj(Box::new(vec2(1, 2)))),
        ],
    }
}

fn path(segments: Vec<&str>) -> Vec<String> {
    segments.into_iter().map(|s| s.to_string()).collect()
}

#[test]
fn get_reads_plain_and_nested_fields() {
    let host = follow();
    let p = Prop::new(path(vec!["target"]));
    assert_eq!(p.get(&host), Some(&Value::Int(9)));
    let p = Prop::new(path(vec!["offset", "x"]));
    assert_eq!(p.get(&host), Some(&Value::Int(1)));
    let p = Prop::new(path(vec!["offset", "y"]));
    assert_eq!(p.get(&host), Some(&Value::Int(2)));
    let p = Prop::new(path(vec!["offset", "z"]));
    assert_eq!(p.get(&host), None);
    let p = Prop::new(path(vec!["target", "x"]));
    assert_eq!(p.get(&host), None);
}

#[test]
fn getter_borrows_the_read_half() {
    let host = follow();
    let p = Prop::new(path(vec!["offset", "y"]));
    let g = p.getter();
    assert_eq!(g.read(&host), Some(&Value::Int(2)));
}

#[test]
fn set_replaces_only_the_addressed_field() {
    let p = Prop::new(path(vec!["offset", "x"]));
    let updated = p.set(follow(), Value::Int(5)).unwrap();
    assert_eq!(p.get(&updated), Some(&Value::Int(5)));
    let untouched = Prop::new(path(vec!["offset", "y"]));
    assert_eq!(untouched.get(&updated), Some(&Value::Int(2)));
    let target = Prop::new(path(vec!["target"]));
    assert_eq!(target.get(&updated), Some(&Value::Int(9)));
    assert_eq!(updated.name, "Follow");

    let plain = Prop::new(path(vec!["target"]));
    let updated = plain.set(follow(), Value::Int(3)).unwrap();
    assert_eq!(plain.get(&updated), Some(&Value::Int(3)));
}

#[test]
fn set_names_the_offending_segment() {
    let p = Prop::new(path(vec!["offset", "z"]));
    assert_eq!(
        p.set(follow(), Value::Int(5)),
        Err(ConstructError::UnknownField("z".to_string()))
    );
    let p = Prop::new(path(vec!["target", "x"]));
    assert_eq!(
        p.set(follow(), Value::Int(5)),
        Err(ConstructError::UnknownField("x".to_string()))
    );
    let p = Prop::new(path(vec!["nope"]));
    assert_eq!(
        p.set(follow(), Value::Int(5)),
        Err(ConstructError::UnknownField("nope".to_string()))
    );
}

#[test]
fn tuple_get_searches_most_derived_first() {
    let tuple = vec![follow(), vec2(7, 8)];
    assert_eq!(tuple_get(&tuple, &path(vec!["x"])), Some(&Value::Int(7)));
    assert_eq!(tuple_get(&tuple, &path(vec!["target"])), Some(&Value::Int(9)));
    assert_eq!(tuple_get(&tuple, &path(vec!["offset", "y"])), Some(&Value::Int(2)));
    assert_eq!(tuple_get(&tuple, &path(vec!["w"])), None);
}

#[test]
fn registering_the_same_path_twice_conflicts() {
    let props = Props::new();
    let props = props.register(Prop::new(path(vec!["offset", "x"]))).unwrap();
    let props = props.register(Prop::new(path(vec!["offset", "y"]))).unwrap();
    let conflict = props.register(Prop::new(path(vec!["offset", "x"]))).unwrap_err();
    assert_eq!(conflict.path, path(vec!["offset", "x"]));
    let report = conflict.validate();
    assert_eq!(report.path, path(vec!["offset", "x"]));
}

#[test]
fn sentinel_offers_nothing() {
    let nothing = NothingProps::instance();
    let getters = nothing.getters();
    assert_eq!(getters.read(&"anything".to_string()), None);
    let _setters = nothing.setters();
    assert_eq!(NothingGetters::instance(), getters);
    assert_eq!(NothingSetters::instance(), NothingSetters);
}

#[test]
fn flatten_then_strip_is_identity() {
    let chains = vec![
        Nested::End,
        Nested::Layer(vec2(1, 2), Box::new(Nested::End)),
        Nested::Layer(follow(), Box::new(Nested::Layer(vec2(3, 4), Box::new(Nested::End)))),
        Nested::Layer(
            vec2(0, 0),
            Box::new(Nested::Layer(
                follow(),
                Box::new(Nested::Layer(vec2(5, 6), Box::new(Nested::End))),
            )),
        ),
    ];
    for chain in chains {
        let expected = flatten_len(&chain);
        let tuple = flatten(chain);
        assert_eq!(tuple.len(), expected);
        let rebuilt = strip(tuple);
        let tuple_again = flatten(rebuilt);
        assert_eq!(tuple_again.len(), expected);
    }
}

fn flatten_len(n: &Nested) -> usize {
    match n {
        Nested::End => 0,
        Nested::Layer(_, rest) => 1 + flatten_len(rest),
    }
}

#[test]
fn strip_rebuilds_the_nested_result() {
    let chain = Nested::Layer(follow(), Box::new(Nested::Layer(vec2(3, 4), Box::new(Nested::End))));
    let chain_again = Nested::Layer(
        follow(),
        Box::new(Nested::Layer(vec2(3, 4), Box::new(Nested::End))),
    );
    let stripped = strip(flatten(chain));
    assert_eq!(stripped, chain_again);

    let tuple = vec![follow(), vec2(3, 4)];
    let flat_again = flatten(strip(tuple));
    assert_eq!(flat_again, vec![follow(), vec2(3, 4)]);
}
