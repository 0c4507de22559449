use acm::layout::{
    allocation_sizes, check_encodable, decode, plan_writes, CppType, CppValue, LayoutError,
    MemoryWrite,
};
use acm::roundtrip::apply_writes;

/// Three pages of guest memory.
fn test_setup() -> Vec<u8> {
    vec![0u8; 3 * 65536]
}

/// Hands out blocks one after the other, eight-byte aligned, with a gap.
struct Bump {
    next: u32,
}

impl Bump {
    fn new() -> Self {
        Bump { next: 1024 }
    }

    fn allocate(&mut self, size: u32) -> u32 {
        let address = self.next;
        self.next += (size + 7) / 8 * 8 + 8;
        address
    }
}

fn store(mem: &mut Vec<u8>, bump: &mut Bump, value: &CppValue) -> usize {
    assert!(check_encodable(value));
    let sizes = allocation_sizes(value);
    let addrs: Vec<u32> = sizes.iter().map(|s| bump.allocate(*s)).collect();
    let writes = plan_writes(value, &addrs);
    apply_writes(mem, &writes).unwrap();
    addrs[0] as usize
}

fn vector_of(t: CppType) -> CppType {
    CppType::Vector(Box::new(t))
}

fn ints(values: &[i32]) -> CppValue {
    CppValue::Vector(CppType::Int, values.iter().map(|x| CppValue::Int(*x)).collect())
}

fn text_value(s: &str) -> CppValue {
    CppValue::Str(s.to_string())
}

fn pair_of(a: CppValue, b: CppValue) -> CppValue {
    CppValue::Pair(Box::new(a), Box::new(b))
}

fn float(x: f32) -> CppValue {
    CppValue::Float(x.to_bits())
}

#[test]
fn vec_i32() {
    let mut memory = test_setup();
    let mut bump = Bump::new();

    let initial = ints(&(0..10).collect::<Vec<i32>>());
    let address = store(&mut memory, &mut bump, &initial);

    let result = decode(&memory, address, &vector_of(CppType::Int)).unwrap();

    assert_eq!(initial, result);
}

#[test]
fn vec_nested() {
    let mut memory = test_setup();
    let mut bump = Bump::new();

    let inner = ints(&[1, 2, 3, 4]);
    let level2 = CppValue::Vector(vector_of(CppType::Int), vec![inner]);
    let level3 = CppValue::Vector(vector_of(vector_of(CppType::Int)), vec![level2]);
    let initial = CppValue::Vector(vector_of(vector_of(vector_of(CppType::Int))), vec![level3]);
    let address = store(&mut memory, &mut bump, &initial);

    let t = vector_of(vector_of(vector_of(vector_of(CppType::Int))));
    let result = decode(&memory, address, &t).unwrap();

    assert_eq!(initial, result);
}

#[test]
fn string() {
    let mut memory = test_setup();
    let mut bump = Bump::new();

    let initial = text_value("hello world");
    let address = store(&mut memory, &mut bump, &initial);

    let result = decode(&memory, address, &CppType::Str).unwrap();

    assert_eq!(initial, result);
}

#[test]
fn vec_string() {
    let mut memory = test_setup();
    let mut bump = Bump::new();

    let initial = CppValue::Vector(
        CppType::Str,
        vec![
            text_value("Longing heart aches deep,"),
            text_value("Echoes of distant love call,"),
            text_value("Silent tears fall asleep."),
        ],
    );
    let address = store(&mut memory, &mut bump, &initial);

    let result = decode(&memory, address, &vector_of(CppType::Str)).unwrap();

    assert_eq!(initial, result);
}

#[test]
fn pair() {
    let mut memory = test_setup();
    let mut bump = Bump::new();

    let initial = pair_of(CppValue::Int(69), float(3.14159));
    let address = store(&mut memory, &mut bump, &initial);

    let t = CppType::Pair(Box::new(CppType::Int), Box::new(CppType::Float));
    let result = decode(&memory, address, &t).unwrap();

    assert_eq!(initial, result);
}

#[test]
fn vec_pair_vec() {
    let mut memory = test_setup();
    let mut bump = Bump::new();

    let int_float = CppType::Pair(Box::new(CppType::Int), Box::new(CppType::Float));
    let float_int = CppType::Pair(Box::new(CppType::Float), Box::new(CppType::Int));
    let left = CppValue::Vector(
        CppType::Pair(Box::new(CppType::Int), Box::new(CppType::Float)),
        (1..=5).map(|i| pair_of(CppValue::Int(i), float(i as f32))).collect(),
    );
    let right = CppValue::Vector(
        CppType::Pair(Box::new(CppType::Float), Box::new(CppType::Int)),
        (1..=5).map(|i| pair_of(float(i as f32), CppValue::Int(i))).collect(),
    );
    let initial = pair_of(left, right);
    let address = store(&mut memory, &mut bump, &initial);

    let t = CppType::Pair(Box::new(vector_of(int_float)), Box::new(vector_of(float_int)));
    let result = decode(&memory, address, &t).unwrap();

    assert_eq!(initial, result);
}

#[test]
fn allocation_sizes_of_values() {
    assert_eq!(allocation_sizes(&ints(&(0..10).collect::<Vec<i32>>())), vec![12, 40]);
    assert_eq!(allocation_sizes(&text_value("hello world")), vec![12, 11]);
    assert_eq!(allocation_sizes(&pair_of(CppValue::Int(1), float(2.0))), vec![8]);
    assert_eq!(allocation_sizes(&CppValue::Long(5)), vec![8]);
    assert_eq!(allocation_sizes(&CppValue::Bool(true)), vec![1]);
    let strings = CppValue::Vector(
        CppType::Str,
        vec![text_value("ab"), text_value(""), text_value("xyz")],
    );
    assert_eq!(allocation_sizes(&strings), vec![12, 36, 2, 0, 3]);
    let nested = CppValue::Vector(vector_of(CppType::Char), vec![
        CppValue::Vector(CppType::Char, vec![CppValue::Char('a'), CppValue::Char('b')]),
        CppValue::Vector(CppType::Char, vec![]),
    ]);
    assert_eq!(allocation_sizes(&nested), vec![12, 24, 2, 0]);
}

#[test]
fn plan_writes_of_vector() {
    let writes = plan_writes(&ints(&[1, 2]), &vec![100, 200]);
    assert_eq!(
        writes,
        vec![
            MemoryWrite {
                address: 100,
                bytes: vec![200, 0, 0, 0, 208, 0, 0, 0, 208, 0, 0, 0]
            },
            MemoryWrite { address: 200, bytes: vec![1, 0, 0, 0] },
            MemoryWrite { address: 204, bytes: vec![2, 0, 0, 0] },
        ]
    );
}

#[test]
fn plan_writes_of_string() {
    let writes = plan_writes(&text_value("hello world"), &vec![16, 64]);
    assert_eq!(writes.len(), 2);
    assert_eq!(writes[0].address, 16);
    assert_eq!(writes[0].bytes, vec![64, 0, 0, 0, 11, 0, 0, 0, 12, 0, 0, 0x80]);
    assert_eq!(writes[1].address, 64);
    assert_eq!(writes[1].bytes, b"hello world".to_vec());
    let even = plan_writes(&text_value("ab"), &vec![0, 32]);
    assert_eq!(even[0].bytes, vec![32, 0, 0, 0, 2, 0, 0, 0, 4, 0, 0, 0x80]);
}

#[test]
fn plan_writes_of_scalars() {
    assert_eq!(
        plan_writes(&CppValue::Long(-2), &vec![8]),
        vec![MemoryWrite { address: 8, bytes: vec![0xfe, 0xff, 0xff, 0xff, 0xff, 0xff, 0xff, 0xff] }]
    );
    assert_eq!(
        plan_writes(&CppValue::Char('A'), &vec![3]),
        vec![MemoryWrite { address: 3, bytes: vec![65] }]
    );
    assert_eq!(
        plan_writes(&CppValue::Bool(true), &vec![5]),
        vec![MemoryWrite { address: 5, bytes: vec![1] }]
    );
    assert_eq!(
        plan_writes(&pair_of(CppValue::Bool(false), CppValue::Int(7)), &vec![40]),
        vec![
            MemoryWrite { address: 40, bytes: vec![0] },
            MemoryWrite { address: 41, bytes: vec![7, 0, 0, 0] },
        ]
    );
}

#[test]
fn decode_short_string() {
    let mut memory = vec![0u8; 64];
    memory[8] = b'h';
    memory[9] = b'i';
    memory[10] = 0;
    memory[19] = 2;
    assert_eq!(decode(&memory, 8, &CppType::Str), Ok(text_value("hi")));
}

#[test]
fn decode_short_string_without_terminator() {
    let memory = vec![0x41u8; 64];
    assert_eq!(decode(&memory, 0, &CppType::Str), Err(LayoutError::MissingTerminator));
}

#[test]
fn decode_out_of_bounds() {
    let memory = vec![0u8; 16];
    assert_eq!(decode(&memory, 14, &CppType::Int), Err(LayoutError::OutOfBounds));
    assert_eq!(decode(&memory, 20, &CppType::Char), Err(LayoutError::OutOfBounds));
    // A vector whose buffer lies past the end of memory.
    let mut memory = vec![0u8; 16];
    memory[0] = 100;
    memory[4] = 104;
    assert_eq!(decode(&memory, 0, &vector_of(CppType::Int)), Err(LayoutError::OutOfBounds));
}

#[test]
fn decode_scalars() {
    let memory = vec![0xff, 0xff, 0xff, 0xff, 1, 0, 0, 0, 0, 0, 0, 0, b'z', 0, 2];
    assert_eq!(decode(&memory, 0, &CppType::Int), Ok(CppValue::Int(-1)));
    assert_eq!(decode(&memory, 4, &CppType::Long), Ok(CppValue::Long(1)));
    assert_eq!(decode(&memory, 12, &CppType::Char), Ok(CppValue::Char('z')));
    assert_eq!(decode(&memory, 13, &CppType::Bool), Ok(CppValue::Bool(false)));
    assert_eq!(decode(&memory, 14, &CppType::Bool), Ok(CppValue::Bool(true)));
}

#[test]
fn apply_writes_out_of_bounds() {
    let mut memory = vec![0u8; 8];
    let writes = vec![
        MemoryWrite { address: 0, bytes: vec![1, 2] },
        MemoryWrite { address: 6, bytes: vec![3, 4, 5] },
        MemoryWrite { address: 2, bytes: vec![9] },
    ];
    assert_eq!(apply_writes(&mut memory, &writes), Err(LayoutError::OutOfBounds));
    assert_eq!(memory, vec![1, 2, 0, 0, 0, 0, 0, 0]);
}

#[test]
fn apply_writes_in_order() {
    let mut memory = vec![0u8; 8];
    let writes = vec![
        MemoryWrite { address: 0, bytes: vec![1, 2, 3] },
        MemoryWrite { address: 2, bytes: vec![9, 9] },
    ];
    assert_eq!(apply_writes(&mut memory, &writes), Ok(()));
    assert_eq!(memory, vec![1, 2, 9, 9, 0, 0, 0, 0]);
}

#[test]
fn check_encodable_rejects_mistyped_vector() {
    let mixed = CppValue::Vector(CppType::Int, vec![CppValue::Int(1), CppValue::Long(2)]);
    assert!(!check_encodable(&mixed));
    assert!(check_encodable(&ints(&[1, 2, 3])));
    assert!(check_encodable(&CppValue::Vector(CppType::Str, vec![])));
}

#[test]
fn type_helpers() {
    let t = CppType::Pair(Box::new(CppType::Long), Box::new(vector_of(CppType::Char)));
    assert_eq!(t.cpp_size_of(), 20);
    assert!(t.same_as(&t.duplicate()));
    assert!(!t.same_as(&CppType::Long));
    assert!(t.is_bounded());
    assert_eq!(pair_of(CppValue::Int(1), text_value("a")).cpp_type(), CppType::Pair(Box::new(CppType::Int), Box::new(CppType::Str)));
}

#[test]
fn wide_chars_read_back_as_their_low_byte() {
    let mut mem = test_setup();
    let mut bump = Bump::new();
    let a = store(&mut mem, &mut bump, &CppValue::Char('é'));
    assert_eq!(decode(&mem, a, &CppType::Char), Ok(CppValue::Char('é')));
    let b = store(&mut mem, &mut bump, &CppValue::Char('Ł'));
    assert_eq!(decode(&mem, b, &CppType::Char), Ok(CppValue::Char('A')));
}
