use oryn::tables::{immutability_error, BindingKind, EnumTable, FunctionTable, Locals, ObjTable};
use oryn::types::EnumVariantInfo;
use std::collections::HashMap;
use oryn::types::{BuiltinFunction, ListMethod, ResolvedType, TypeMap};

#[test]
fn list_methods_round_trip_through_names_and_ids() {
    for m in [ListMethod::Len, ListMethod::Push, ListMethod::Pop] {
        assert_eq!(ListMethod::from_name(m.name()), Some(m));
        assert_eq!(ListMethod::from_id(m.id()), Some(m));
    }
    assert_eq!(ListMethod::from_name("shift"), None);
    assert_eq!(ListMethod::from_id(200), None);
}

#[test]
fn list_method_signatures() {
    let elem = ResolvedType::Int;
    assert_eq!(ListMethod::Len.param_types(&elem).len(), 0);
    assert_eq!(ListMethod::Push.param_types(&elem).len(), 1);
    assert_eq!(ListMethod::Pop.return_type(&elem).display_name(), "int?");
    assert_eq!(ListMethod::Len.return_type(&elem).display_name(), "int");
}

#[test]
fn display_names() {
    let obj = ResolvedType::Object { name: "Vec2".into(), module: vec!["math".into(), "geo".into()] };
    assert_eq!(obj.display_name(), "math.geo.Vec2");
    let t = ResolvedType::List(Box::new(ResolvedType::Nillable(Box::new(ResolvedType::ErrorUnion(Box::new(
        ResolvedType::Str,
    ))))));
    assert_eq!(t.display_name(), "[!String?]");
    assert_eq!(ResolvedType::Unknown.display_name(), "unknown");
}

#[test]
fn compatibility_rules() {
    let int = ResolvedType::Int;
    let nillable = ResolvedType::Nillable(Box::new(ResolvedType::Int));
    let union = ResolvedType::ErrorUnion(Box::new(ResolvedType::Int));
    assert!(int.is_compatible_with(&int));
    assert!(nillable.is_compatible_with(&int));
    assert!(nillable.is_compatible_with(&ResolvedType::Nil));
    assert!(union.is_compatible_with(&int));
    assert!(union.is_compatible_with(&ResolvedType::Error));
    assert!(!int.is_compatible_with(&ResolvedType::Bool));
    assert!(ResolvedType::Unknown.is_compatible_with(&ResolvedType::Bool));
    assert!(int.is_compatible_with(&ResolvedType::Unknown));
}

#[test]
fn type_map_reads_back_names() {
    let mut m = TypeMap::new();
    assert!(m.is_empty());
    m.insert(3..5, &ResolvedType::Int);
    m.insert(7..9, &ResolvedType::Unknown);
    assert!(!m.is_empty());
    assert_eq!(m.get(&(3..5)), Some("int"));
    assert_eq!(m.get(&(7..9)), None);
    m.insert(3..5, &ResolvedType::Bool);
    assert_eq!(m.get(&(3..5)), Some("bool"));
}

#[test]
fn builtin_names() {
    assert_eq!(BuiltinFunction::Print.name(), "print");
}

#[test]
fn locals_define_resolve_and_restore() {
    let mut locals = Locals::new();
    let a = locals.define("a".into(), BindingKind::Let, ResolvedType::Int);
    let snap = locals.snapshot();
    let b = locals.define("b".into(), BindingKind::Val, ResolvedType::Bool);
    assert_eq!((a, b), (0, 1));
    assert_eq!(locals.resolve("b").unwrap().slot, 1);
    locals.restore(snap);
    assert!(locals.resolve("b").is_none());
    assert_eq!(locals.resolve("a").unwrap().slot, 0);
    assert_eq!(locals.max_count, 2);
}

#[test]
fn function_table_resolves_absolute_indices() {
    let mut t = FunctionTable::new(10);
    assert_eq!(t.register("f".into(), 2), 12);
    assert_eq!(t.resolve("f"), Some(12));
    assert_eq!(t.resolve("g"), None);
}

#[test]
fn immutability_messages() {
    assert_eq!(immutability_error("x", &BindingKind::Val, "assign to"), "cannot assign to val binding `x`");
    assert_eq!(
        immutability_error("p", &BindingKind::Param, "mutate"),
        "cannot mutate parameter `p`; parameters are immutable (mark with `mut` to allow mutation)"
    );
    assert_eq!(
        immutability_error("self", &BindingKind::Param, "mutate"),
        "cannot mutate `self` in a non-mutating method; declare the method's receiver as `mut self` to allow mutation"
    );
    assert!(BindingKind::Let.is_mutable());
    assert!(!BindingKind::Val.is_mutable());
}

#[test]
fn registered_objects_resolve_to_their_definition() {
    let mut t = ObjTable::new(3);
    let register = |t: &mut ObjTable, name: &str, field: &str| {
        t.register(
            name.into(),
            vec![field.into()],
            vec![ResolvedType::Int],
            vec![true],
            HashMap::new(),
            HashMap::new(),
            HashMap::new(),
            HashMap::new(),
            HashMap::new(),
            HashMap::new(),
            vec![],
            false,
        )
    };
    assert_eq!(register(&mut t, "Vec2", "x"), 3);
    assert_eq!(register(&mut t, "Player", "hp"), 4);
    let (i, d) = t.resolve("Vec2").unwrap();
    assert_eq!(i, 3);
    assert_eq!(d.fields, vec!["x".to_string()]);
    assert_eq!(register(&mut t, "Vec2", "y"), 5);
    let (i, d) = t.resolve("Vec2").unwrap();
    assert_eq!(i, 5);
    assert_eq!(d.fields, vec!["y".to_string()]);
    assert_eq!(t.resolve("Player").unwrap().0, 4);
    assert!(t.resolve("Enemy").is_none());
}

#[test]
fn registered_enums_resolve_to_their_variants() {
    let mut t = EnumTable::new(0);
    let variant = |n: &str| EnumVariantInfo { name: n.into(), field_names: vec![], field_types: vec![] };
    assert_eq!(t.register("Color".into(), vec![variant("Red"), variant("Green")], true, false), 0);
    let (e, v, info) = t.resolve_variant("Color", "Green").unwrap();
    assert_eq!((e, v), (0, 1));
    assert_eq!(info.name, "Green");
    assert!(t.resolve_variant("Color", "Blue").is_none());
    assert!(t.resolve_variant("Shape", "Red").is_none());
    assert_eq!(t.resolve("Color").unwrap().1.variants.len(), 2);
}
