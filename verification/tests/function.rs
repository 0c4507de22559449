use acm::function::{
    call_result, ArgumentPlan, ContainerVariant, ContainerVariantType, FunctionType, FunctionValue,
    WasmFunctionCall, WasmVal, WasmValKind,
};
use acm::layout::{allocation_sizes, plan_writes, CppType, CppValue, LayoutError};
use acm::roundtrip::apply_writes;

fn store_at(memory: &mut Vec<u8>, value: &CppValue, first: u32) {
    let sizes = allocation_sizes(value);
    let mut next = first;
    let mut addrs = vec![];
    for s in sizes {
        addrs.push(next);
        next += (s + 7) / 8 * 8 + 8;
    }
    apply_writes(memory, &plan_writes(value, &addrs)).unwrap();
}

#[test]
fn function_value_round_trip_through_memory() {
    let grid = FunctionValue::Char(ContainerVariant::Grid(vec![
        vec!['#', '.', '#'],
        vec!['.', '.', '.'],
    ]));
    let mut memory = vec![0u8; 4096];
    store_at(&mut memory, &grid.to_cpp(), 0);
    let back = FunctionType::Char(ContainerVariantType::Grid).from_memory(&memory, 0).unwrap();
    assert_eq!(back, grid);

    let words = FunctionValue::String(ContainerVariant::List(vec![
        "alpha".to_string(),
        "".to_string(),
        "gamma".to_string(),
    ]));
    let mut memory = vec![0u8; 4096];
    store_at(&mut memory, &words.to_cpp(), 0);
    let back = FunctionType::String(ContainerVariantType::List).from_memory(&memory, 0).unwrap();
    assert_eq!(back, words);

    let longs = FunctionValue::Long(ContainerVariant::Graph(vec![vec![1, 2], vec![], vec![-3]]));
    let mut memory = vec![0u8; 4096];
    store_at(&mut memory, &longs.to_cpp(), 0);
    let back = FunctionType::Long(ContainerVariantType::Graph).from_memory(&memory, 0).unwrap();
    assert_eq!(back, longs);
}

#[test]
fn from_memory_reports_layout_errors() {
    let memory = vec![0u8; 4];
    assert_eq!(
        FunctionType::Int(ContainerVariantType::List).from_memory(&memory, 0),
        Err(LayoutError::OutOfBounds)
    );
    let memory = vec![0u8; 4];
    assert_eq!(
        FunctionType::Int(ContainerVariantType::Single).from_memory(&memory, 0),
        Ok(FunctionValue::Int(ContainerVariant::Single(0)))
    );
}

#[test]
fn cpp_types_of_function_types() {
    assert_eq!(FunctionType::Bool(ContainerVariantType::Single).cpp_type(), CppType::Bool);
    assert_eq!(
        FunctionType::Double(ContainerVariantType::List).cpp_type(),
        CppType::Vector(Box::new(CppType::Double))
    );
    assert_eq!(
        FunctionType::String(ContainerVariantType::Graph).cpp_type(),
        CppType::Vector(Box::new(CppType::Vector(Box::new(CppType::Str))))
    );
}

#[test]
fn new_call() {
    let call = WasmFunctionCall::new(
        "fibonacci",
        vec![FunctionValue::Int(ContainerVariant::Single(10))],
        FunctionType::Int(ContainerVariantType::Single),
    );
    assert_eq!(call.name, "fibonacci");
    assert_eq!(call.arguments.len(), 1);
    assert_eq!(call.return_type, FunctionType::Int(ContainerVariantType::Single));
}

#[test]
fn plan_passes_singles_directly() {
    let call = WasmFunctionCall::new(
        "f",
        vec![
            FunctionValue::Int(ContainerVariant::Single(-4)),
            FunctionValue::Char(ContainerVariant::Single('a')),
            FunctionValue::Bool(ContainerVariant::Single(true)),
            FunctionValue::Long(ContainerVariant::Single(1 << 40)),
            FunctionValue::Float(ContainerVariant::Single(1.5f32.to_bits())),
            FunctionValue::Double(ContainerVariant::Single(2.5f64.to_bits())),
            FunctionValue::Int(ContainerVariant::List(vec![1, 2])),
        ],
        FunctionType::Long(ContainerVariantType::Single),
    );
    let plan = call.plan();
    assert_eq!(plan.result, Some(WasmValKind::I64));
    assert_eq!(plan.arguments[0], ArgumentPlan::Direct(WasmVal::I32(-4)));
    assert_eq!(plan.arguments[1], ArgumentPlan::Direct(WasmVal::I32(97)));
    assert_eq!(plan.arguments[2], ArgumentPlan::Direct(WasmVal::I32(1)));
    assert_eq!(plan.arguments[3], ArgumentPlan::Direct(WasmVal::I64(1 << 40)));
    assert_eq!(plan.arguments[4], ArgumentPlan::Direct(WasmVal::F32(1.5f32.to_bits())));
    assert_eq!(plan.arguments[5], ArgumentPlan::Direct(WasmVal::F64(2.5f64.to_bits())));
    assert_eq!(
        plan.arguments[6],
        ArgumentPlan::Stored(CppValue::Vector(
            CppType::Int,
            vec![CppValue::Int(1), CppValue::Int(2)]
        ))
    );
    let params = plan.params(&vec![4096]);
    assert_eq!(
        params,
        vec![
            WasmVal::I32(-4),
            WasmVal::I32(97),
            WasmVal::I32(1),
            WasmVal::I64(1 << 40),
            WasmVal::F32(1.5f32.to_bits()),
            WasmVal::F64(2.5f64.to_bits()),
            WasmVal::I32(4096),
        ]
    );
}

#[test]
fn plan_puts_result_address_first() {
    let call = WasmFunctionCall::new(
        "g",
        vec![
            FunctionValue::String(ContainerVariant::Single("abc".to_string())),
            FunctionValue::Int(ContainerVariant::Single(3)),
            FunctionValue::Char(ContainerVariant::List(vec!['x'])),
        ],
        FunctionType::Int(ContainerVariantType::List),
    );
    let plan = call.plan();
    assert_eq!(plan.result, None);
    let params = plan.params(&vec![100, 200]);
    assert_eq!(
        params,
        vec![WasmVal::I32(0), WasmVal::I32(100), WasmVal::I32(3), WasmVal::I32(200)]
    );
}

#[test]
fn direct_results() {
    let empty: Vec<u8> = vec![];
    assert_eq!(
        call_result(FunctionType::Int(ContainerVariantType::Single), &vec![WasmVal::I32(7)], &empty),
        Ok(FunctionValue::Int(ContainerVariant::Single(7)))
    );
    assert_eq!(
        call_result(FunctionType::Char(ContainerVariantType::Single), &vec![WasmVal::I32(0x141)], &empty),
        Ok(FunctionValue::Char(ContainerVariant::Single('A')))
    );
    assert_eq!(
        call_result(FunctionType::Bool(ContainerVariantType::Single), &vec![WasmVal::I32(2)], &empty),
        Ok(FunctionValue::Bool(ContainerVariant::Single(true)))
    );
    assert_eq!(
        call_result(FunctionType::Long(ContainerVariantType::Single), &vec![WasmVal::I64(-9)], &empty),
        Ok(FunctionValue::Long(ContainerVariant::Single(-9)))
    );
}

#[test]
fn result_read_from_address_zero() {
    let mut memory = vec![0u8; 1024];
    let value = FunctionValue::Int(ContainerVariant::List(vec![5, 6, 7]));
    store_at(&mut memory, &value.to_cpp(), 0);
    assert_eq!(
        call_result(FunctionType::Int(ContainerVariantType::List), &vec![], &memory),
        Ok(value)
    );
}

#[test]
fn values_match_rules() {
    let a = FunctionValue::Int(ContainerVariant::List(vec![1, 2, 3]));
    let b = FunctionValue::Int(ContainerVariant::List(vec![1, 2, 3]));
    let c = FunctionValue::Int(ContainerVariant::List(vec![1, 2]));
    assert_eq!(a.values_match(&b), Some(true));
    assert_eq!(a.values_match(&c), Some(false));
    assert_eq!(c.values_match(&a), Some(false));

    let grid = FunctionValue::Int(ContainerVariant::Grid(vec![vec![1]]));
    let graph = FunctionValue::Int(ContainerVariant::Graph(vec![vec![1]]));
    assert_eq!(grid.values_match(&graph), Some(false));
    assert_eq!(grid.values_match(&grid), Some(true));

    let long = FunctionValue::Long(ContainerVariant::Single(1));
    let int = FunctionValue::Int(ContainerVariant::Single(1));
    assert_eq!(long.values_match(&int), Some(false));

    let f = FunctionValue::Float(ContainerVariant::Single(1.0f32.to_bits()));
    assert_eq!(f.values_match(&f), Some(false));

    let d = FunctionValue::Double(ContainerVariant::Single(1.0f64.to_bits()));
    assert_eq!(d.values_match(&d), None);
    let dl = FunctionValue::Double(ContainerVariant::List(vec![1.0f64.to_bits()]));
    assert_eq!(dl.values_match(&dl), Some(false));

    let s1 = FunctionValue::String(ContainerVariant::Single("hi".to_string()));
    let s2 = FunctionValue::String(ContainerVariant::Single("hi".to_string()));
    assert_eq!(s1.values_match(&s2), Some(true));
}

#[test]
fn scaling_counts() {
    assert_eq!(
        FunctionValue::String(ContainerVariant::Single("héllo".to_string())).scaling_count(),
        Some(6)
    );
    assert_eq!(FunctionValue::Int(ContainerVariant::Single(-42)).scaling_count(), Some(42));
    assert_eq!(FunctionValue::Long(ContainerVariant::Single(7)).scaling_count(), Some(7));
    assert_eq!(FunctionValue::Char(ContainerVariant::Single('q')).scaling_count(), Some(1));
    assert_eq!(
        FunctionValue::Bool(ContainerVariant::List(vec![true, false, true])).scaling_count(),
        Some(3)
    );
    assert_eq!(
        FunctionValue::Int(ContainerVariant::Grid(vec![vec![1, 2, 3], vec![4, 5, 6]])).scaling_count(),
        Some(6)
    );
    assert_eq!(
        FunctionValue::Int(ContainerVariant::Graph(vec![vec![1], vec![0], vec![]])).scaling_count(),
        Some(3)
    );
    assert_eq!(
        FunctionValue::Double(ContainerVariant::Single(2.0f64.to_bits())).scaling_count(),
        None
    );
}

#[test]
fn function_types_of_values() {
    let v = FunctionValue::Bool(ContainerVariant::Grid(vec![]));
    assert_eq!(v.function_type(), FunctionType::Bool(ContainerVariantType::Grid));
}

#[test]
fn result_out_of_memory_is_a_layout_error() {
    let memory = vec![0u8; 6];
    assert_eq!(
        call_result(FunctionType::String(ContainerVariantType::Single), &vec![], &memory),
        Err(acm::function::CallError::Layout(LayoutError::OutOfBounds))
    );
}
