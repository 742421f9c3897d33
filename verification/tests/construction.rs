use constructivism::chain::{
    build_chain, build_level, chain_of, construct_all, Chain, Extends, Instance, Is, Level,
    LevelDecl,
};
use constructivism::errors::ConstructError;
use constructivism::field::{Field, Policy};
use constructivism::value::{Entry, TypeTag, Value};

fn fld(name: &str, tag: TypeTag, policy: Policy) -> Field {
    Field::new(name.to_string(), tag, policy)
}

fn slider_level() -> Level {
    Level::new(
        "Slider".to_string(),
        vec![
            fld("min", TypeTag::Int, Policy::StandardDefault),
            fld("max", TypeTag::Int, Policy::StandardDefault),
            fld("val", TypeTag::Int, Policy::StandardDefault),
        ],
    )
}

fn slider_label_level() -> Level {
    Level::new(
        "SliderLabel".to_string(),
        vec![fld("value", TypeTag::Str, Policy::StandardDefault)],
    )
}

fn animal_level() -> Level {
    Level::new(
        "Animal".to_string(),
        vec![fld("name", TypeTag::Str, Policy::Required)],
    )
}

fn duck_level() -> Level {
    Level::new(
        "Duck".to_string(),
        vec![fld("quack_volume", TypeTag::Int, Policy::FixedDefault(Value::Int(1)))],
    )
}

fn follow_level() -> Level {
    Level::new(
        "Follow".to_string(),
        vec![
            fld("target", TypeTag::Int, Policy::Required),
            fld("offset", TypeTag::Pair, Policy::StandardDefault),
        ],
    )
}

fn supplied(pairs: Vec<(&str, Value)>) -> Vec<(String, Value)> {
    pairs.into_iter().map(|(n, v)| (n.to_string(), v)).collect()
}

fn entry_value<'a>(inst: &'a Instance, name: &str) -> &'a Value {
    for e in &inst.entries {
        if e.name == name {
            return &e.value;
        }
    }
    panic!("no field named {}", name);
}

#[test]
fn test_main() {
    let slider = build_level(slider_level(), supplied(vec![("max", Value::Int(23))])).unwrap();
    assert_eq!(
        slider,
        Instance {
            name: "Slider".to_string(),
            entries: vec![
                Entry { name: "min".to_string(), value: Value::Int(0) },
                Entry { name: "max".to_string(), value: Value::Int(23) },
                Entry { name: "val".to_string(), value: Value::Int(0) },
            ],
        }
    );

    let chain = Chain::new(vec![slider_label_level(), slider_level()]);
    let _all_structs = build_chain(
        chain,
        supplied(vec![("value", Value::Str("Hello?".to_string()))]),
    )
    .unwrap();
}

#[test]
fn test_construct() {
    let chain = Chain::new(vec![duck_level(), animal_level()]);
    let out = build_chain(
        chain,
        supplied(vec![
            ("name", Value::Str("bob".to_string())),
            ("quack_volume", Value::Int(22)),
        ]),
    )
    .unwrap();
    let duck = &out[0];
    let animal = &out[1];
    assert_eq!(entry_value(animal, "name"), &Value::Str("bob".to_string()));
    assert_eq!(entry_value(duck, "quack_volume"), &Value::Int(22));
}

#[test]
fn test_required() {
    let chain = Chain::new(vec![follow_level(), duck_level(), animal_level()]);
    let out = build_chain(
        chain,
        supplied(vec![
            ("target", Value::Int(20)),
            ("name", Value::Str("Bill".to_string())),
        ]),
    )
    .unwrap();
    let follow = &out[0];
    let duck = &out[1];
    let animal = &out[2];
    assert_eq!(entry_value(follow, "target"), &Value::Int(20));
    let (x, y) = match entry_value(follow, "offset") {
        Value::Pair(x, y) => (*x, *y),
        other => panic!("offset is not a pair: {:?}", other),
    };
    assert_eq!(x, 0);
    assert_eq!(y, 0);
    assert_eq!(entry_value(duck, "quack_volume"), &Value::Int(1));
    assert_eq!(entry_value(animal, "name"), &Value::Str("Bill".to_string()));

    let follow = build_level(follow_level(), supplied(vec![("target", Value::Int(10))])).unwrap();
    assert_eq!(entry_value(&follow, "target"), &Value::Int(10));
}

#[test]
fn scenario_duck_both_supplied() {
    let chain = Chain::new(vec![
        Level::new(
            "Duck".to_string(),
            vec![fld("volume", TypeTag::Int, Policy::FixedDefault(Value::Int(1)))],
        ),
        animal_level(),
    ]);
    let out = build_chain(
        chain,
        supplied(vec![
            ("name", Value::Str("bob".to_string())),
            ("volume", Value::Int(22)),
        ]),
    )
    .unwrap();
    assert_eq!(out.len(), 2);
    assert_eq!(out[0].name, "Duck");
    assert_eq!(entry_value(&out[0], "volume"), &Value::Int(22));
    assert_eq!(out[1].name, "Animal");
    assert_eq!(entry_value(&out[1], "name"), &Value::Str("bob".to_string()));
}

#[test]
fn scenario_duck_default_volume() {
    let chain = Chain::new(vec![
        Level::new(
            "Duck".to_string(),
            vec![fld("volume", TypeTag::Int, Policy::FixedDefault(Value::Int(1)))],
        ),
        animal_level(),
    ]);
    let out = build_chain(
        chain,
        supplied(vec![("name", Value::Str("Bill".to_string()))]),
    )
    .unwrap();
    assert_eq!(entry_value(&out[0], "volume"), &Value::Int(1));
    assert_eq!(entry_value(&out[1], "name"), &Value::Str("Bill".to_string()));
}

#[test]
fn scenario_missing_required() {
    let chain = Chain::new(vec![
        Level::new(
            "Duck".to_string(),
            vec![fld("volume", TypeTag::Int, Policy::FixedDefault(Value::Int(1)))],
        ),
        animal_level(),
    ]);
    let r = build_chain(chain, supplied(vec![("volume", Value::Int(5))]));
    assert_eq!(r, Err(ConstructError::MissingRequiredField("name".to_string())));
}

#[test]
fn scenario_duplicate_supply() {
    let chain = Chain::new(vec![
        Level::new(
            "Duck".to_string(),
            vec![fld("volume", TypeTag::Int, Policy::FixedDefault(Value::Int(1)))],
        ),
        animal_level(),
    ]);
    let r = build_chain(
        chain,
        supplied(vec![
            ("name", Value::Str("a".to_string())),
            ("name", Value::Str("b".to_string())),
        ]),
    );
    assert_eq!(r, Err(ConstructError::DuplicateFieldAssignment("name".to_string())));
}

#[test]
fn scenario_three_level_chain() {
    let chain = Chain::new(vec![follow_level(), duck_level(), animal_level()]);
    let out = build_chain(
        chain,
        supplied(vec![
            ("target", Value::Int(7)),
            ("name", Value::Str("Bill".to_string())),
        ]),
    )
    .unwrap();
    assert_eq!(out.len(), 3);
    assert_eq!(entry_value(&out[0], "target"), &Value::Int(7));
    assert_eq!(entry_value(&out[0], "offset"), &Value::Pair(0, 0));
    assert_eq!(entry_value(&out[1], "quack_volume"), &Value::Int(1));
    assert_eq!(entry_value(&out[2], "name"), &Value::Str("Bill".to_string()));
}

#[test]
fn unknown_field_is_rejected() {
    let chain = Chain::new(vec![duck_level(), animal_level()]);
    let r = build_chain(chain, supplied(vec![("wings", Value::Int(2))]));
    assert_eq!(r, Err(ConstructError::UnknownField("wings".to_string())));
}

#[test]
fn chain_too_deep_is_rejected() {
    let mut levels = Vec::new();
    for i in 0..17 {
        levels.push(Level::new(
            format!("L{}", i),
            vec![fld(&format!("f{}", i), TypeTag::Int, Policy::StandardDefault)],
        ));
    }
    let r = build_chain(Chain::new(levels), Vec::new());
    assert_eq!(r, Err(ConstructError::ChainDepthExceeded));
}

#[test]
fn skip_fields_are_injected_and_not_assignable() {
    let level = Level::new(
        "Tagged".to_string(),
        vec![
            fld("kind", TypeTag::Int, Policy::Skip(Value::Int(9))),
            fld("label", TypeTag::Str, Policy::Required),
        ],
    );
    let inst = build_level(
        level,
        supplied(vec![("label", Value::Str("x".to_string()))]),
    )
    .unwrap();
    assert_eq!(inst.entries.len(), 2);
    assert_eq!(inst.entries[0].name, "kind");
    assert_eq!(inst.entries[0].value, Value::Int(9));
    assert_eq!(inst.entries[1].value, Value::Str("x".to_string()));

    let level = Level::new(
        "Tagged".to_string(),
        vec![
            fld("kind", TypeTag::Int, Policy::Skip(Value::Int(9))),
            fld("label", TypeTag::Str, Policy::Required),
        ],
    );
    let r = build_level(
        level,
        supplied(vec![
            ("label", Value::Str("x".to_string())),
            ("kind", Value::Int(1)),
        ]),
    );
    assert_eq!(r, Err(ConstructError::UnknownField("kind".to_string())));
}

#[test]
fn declaration_unrolls_with_segments() {
    let decl = LevelDecl {
        name: "Follow".to_string(),
        fields: vec![
            fld("target", TypeTag::Int, Policy::Required),
            fld("offset", TypeTag::Pair, Policy::StandardDefault),
        ],
        segments: vec![Level::new(
            "Tracked".to_string(),
            vec![fld("speed", TypeTag::Int, Policy::FixedDefault(Value::Int(2)))],
        )],
        base: Some(Box::new(LevelDecl {
            name: "Duck".to_string(),
            fields: vec![fld("quack_volume", TypeTag::Int, Policy::FixedDefault(Value::Int(1)))],
            segments: vec![],
            base: Some(Box::new(LevelDecl {
                name: "Animal".to_string(),
                fields: vec![fld("name", TypeTag::Str, Policy::Required)],
                segments: vec![],
                base: None,
            })),
        })),
    };
    let out = construct_all(
        decl,
        supplied(vec![
            ("target", Value::Int(4)),
            ("name", Value::Str("Eve".to_string())),
        ]),
    )
    .unwrap();
    assert_eq!(out.len(), 4);
    assert_eq!(out[0].name, "Follow");
    assert_eq!(out[1].name, "Tracked");
    assert_eq!(out[2].name, "Duck");
    assert_eq!(out[3].name, "Animal");
    assert_eq!(entry_value(&out[0], "target"), &Value::Int(4));
    assert_eq!(entry_value(&out[1], "speed"), &Value::Int(2));
    assert_eq!(entry_value(&out[2], "quack_volume"), &Value::Int(1));
    assert_eq!(entry_value(&out[3], "name"), &Value::Str("Eve".to_string()));

    let plain = LevelDecl {
        name: "Animal".to_string(),
        fields: vec![fld("name", TypeTag::Str, Policy::Required)],
        segments: vec![],
        base: None,
    };
    let chain = chain_of(plain);
    assert_eq!(chain.levels.len(), 1);
    assert_eq!(chain.levels[0].name, "Animal");
}

#[test]
fn chain_extension_is_by_level_names() {
    let duck = Chain::new(vec![duck_level(), animal_level()]);
    let animal = Chain::new(vec![animal_level()]);
    let follow = Chain::new(vec![follow_level(), duck_level(), animal_level()]);
    assert!(duck.extends(&animal));
    assert!(follow.extends(&duck));
    assert!(follow.extends(&animal));
    assert!(!animal.extends(&duck));
    assert!(!duck.extends(&duck));
    assert!(duck.is_a(&duck));
    assert!(duck.is_a(&animal));
    assert!(!animal.is_a(&duck));
    let other = Chain::new(vec![slider_level()]);
    assert!(!duck.extends(&other));
    assert!(!duck.is_a(&other));
}

#[test]
fn required_surfaces_before_any_instance() {
    // the missing field sits in the most derived level; deeper levels
    // would construct fine, yet nothing is returned
    let chain = Chain::new(vec![animal_level(), duck_level()]);
    let r = build_chain(chain, supplied(vec![("quack_volume", Value::Int(3))]));
    assert_eq!(r, Err(ConstructError::MissingRequiredField("name".to_string())));
}
