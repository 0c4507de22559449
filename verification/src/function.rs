//! The values a judged function takes and returns, and how a call of such a
//! function is carried out on a WebAssembly guest.
//!
//! A value is a single element, a list, a grid or a graph (the last two are
//! lists of lists) of strings, `int`s, `long`s, `float`s, `double`s, `char`s or
//! `bool`s. Floating-point numbers are held by their bits.
use vstd::prelude::*;
use vstd::string::StringExecFns;
use vstd::utf8::encode_utf8;
use crate::layout::{
    CppType, CppValue, Data, LayoutError, type_of, well_typed, bounded_type, models, lemma_models,
    spec_decode, decode, lemma_decode_typed,
};

verus! {

/// The shape of a value: a graph, a grid, a list or a single element.
#[derive(Clone, Copy, Debug, PartialEq, Eq, Structural)]
pub enum ContainerVariantType {
    Graph,
    Grid,
    List,
    Single,
}

/// A value of one of the four shapes.
#[derive(Debug, Clone, PartialEq)]
pub enum ContainerVariant<T> {
    Graph(Vec<Vec<T>>),
    Grid(Vec<Vec<T>>),
    List(Vec<T>),
    Single(T),
}

/// An argument or a result of a judged function.
#[derive(Debug, Clone, PartialEq)]
pub enum FunctionValue {
    String(ContainerVariant<String>),
    Int(ContainerVariant<i32>),
    Long(ContainerVariant<i64>),
    /// `float`s, by their bits.
    Float(ContainerVariant<u32>),
    /// `double`s, by their bits.
    Double(ContainerVariant<u64>),
    Char(ContainerVariant<char>),
    Bool(ContainerVariant<bool>),
}

/// The type of an argument or a result: its element type and its shape.
#[derive(Clone, Copy, Debug, PartialEq, Eq, Structural)]
pub enum FunctionType {
    String(ContainerVariantType),
    Int(ContainerVariantType),
    Long(ContainerVariantType),
    Float(ContainerVariantType),
    Double(ContainerVariantType),
    Char(ContainerVariantType),
    Bool(ContainerVariantType),
}

/// A Rust element type with a C++ layout.
pub trait WasmMemory: Sized {
    /// The C++ type that holds an element.
    spec fn cpp_elem() -> CppType;

    /// The content of an element.
    spec fn data(&self) -> Data;

    proof fn lemma_typed(&self)
        ensures
            type_of(self.data()) == Self::cpp_elem(),
            well_typed(self.data()),
            bounded_type(Self::cpp_elem()),
    ;

    fn elem_type() -> (t: CppType)
        ensures
            t == Self::cpp_elem(),
    ;

    fn to_cpp(&self) -> (v: CppValue)
        ensures
            v.model() == self.data(),
    ;

    /// The element a C++ value holds, if it is of this type.
    fn from_cpp(v: &CppValue) -> (r: Option<Self>)
        ensures
            match r {
                Some(x) => x.data() == v.model(),
                None => type_of(v.model()) != Self::cpp_elem(),
            },
    ;

    /// Whether the two elements are equal.
    fn same(&self, other: &Self) -> (r: bool)
        ensures
            r == (self.data() == other.data()),
    ;
}

impl WasmMemory for i32 {
    open spec fn cpp_elem() -> CppType {
        CppType::Int
    }

    open spec fn data(&self) -> Data {
        Data::Int(*self)
    }

    proof fn lemma_typed(&self) {
    }

    fn elem_type() -> (t: CppType) {
        CppType::Int
    }

    fn to_cpp(&self) -> (v: CppValue) {
        CppValue::Int(*self)
    }

    fn from_cpp(v: &CppValue) -> (r: Option<Self>) {
        match v {
            CppValue::Int(x) => Some(*x),
            _ => None,
        }
    }

    fn same(&self, other: &Self) -> (r: bool) {
        *self == *other
    }
}

impl WasmMemory for i64 {
    open spec fn cpp_elem() -> CppType {
        CppType::Long
    }

    open spec fn data(&self) -> Data {
        Data::Long(*self)
    }

    proof fn lemma_typed(&self) {
    }

    fn elem_type() -> (t: CppType) {
        CppType::Long
    }

    fn to_cpp(&self) -> (v: CppValue) {
        CppValue::Long(*self)
    }

    fn from_cpp(v: &CppValue) -> (r: Option<Self>) {
        match v {
            CppValue::Long(x) => Some(*x),
            _ => None,
        }
    }

    fn same(&self, other: &Self) -> (r: bool) {
        *self == *other
    }
}

/// `float`s, by their bits.
impl WasmMemory for u32 {
    open spec fn cpp_elem() -> CppType {
        CppType::Float
    }

    open spec fn data(&self) -> Data {
        Data::Float(*self)
    }

    proof fn lemma_typed(&self) {
    }

    fn elem_type() -> (t: CppType) {
        CppType::Float
    }

    fn to_cpp(&self) -> (v: CppValue) {
        CppValue::Float(*self)
    }

    fn from_cpp(v: &CppValue) -> (r: Option<Self>) {
        match v {
            CppValue::Float(x) => Some(*x),
            _ => None,
        }
    }

    fn same(&self, other: &Self) -> (r: bool) {
        *self == *other
    }
}

/// `double`s, by their bits.
impl WasmMemory for u64 {
    open spec fn cpp_elem() -> CppType {
        CppType::Double
    }

    open spec fn data(&self) -> Data {
        Data::Double(*self)
    }

    proof fn lemma_typed(&self) {
    }

    fn elem_type() -> (t: CppType) {
        CppType::Double
    }

    fn to_cpp(&self) -> (v: CppValue) {
        CppValue::Double(*self)
    }

    fn from_cpp(v: &CppValue) -> (r: Option<Self>) {
        match v {
            CppValue::Double(x) => Some(*x),
            _ => None,
        }
    }

    fn same(&self, other: &Self) -> (r: bool) {
        *self == *other
    }
}

fn char_value(c: char) -> (v: CppValue)
    ensures
        v.model() == Data::Char(c),
{
    CppValue::Char(c)
}

impl WasmMemory for char {
    open spec fn cpp_elem() -> CppType {
        CppType::Char
    }

    open spec fn data(&self) -> Data {
        Data::Char(*self)
    }

    proof fn lemma_typed(&self) {
    }

    fn elem_type() -> (t: CppType) {
        CppType::Char
    }

    fn to_cpp(&self) -> (v: CppValue) {
        char_value(*self)
    }

    fn from_cpp(v: &CppValue) -> (r: Option<Self>) {
        match v {
            CppValue::Char(x) => Some(*x),
            _ => None,
        }
    }

    fn same(&self, other: &Self) -> (r: bool) {
        *self == *other
    }
}

impl WasmMemory for bool {
    open spec fn cpp_elem() -> CppType {
        CppType::Bool
    }

    open spec fn data(&self) -> Data {
        Data::Bool(*self)
    }

    proof fn lemma_typed(&self) {
    }

    fn elem_type() -> (t: CppType) {
        CppType::Bool
    }

    fn to_cpp(&self) -> (v: CppValue) {
        CppValue::Bool(*self)
    }

    fn from_cpp(v: &CppValue) -> (r: Option<Self>) {
        match v {
            CppValue::Bool(x) => Some(*x),
            _ => None,
        }
    }

    fn same(&self, other: &Self) -> (r: bool) {
        *self == *other
    }
}

impl WasmMemory for String {
    open spec fn cpp_elem() -> CppType {
        CppType::Str
    }

    open spec fn data(&self) -> Data {
        Data::Str(self@)
    }

    proof fn lemma_typed(&self) {
    }

    fn elem_type() -> (t: CppType) {
        CppType::Str
    }

    fn to_cpp(&self) -> (v: CppValue) {
        CppValue::Str(self.clone())
    }

    fn from_cpp(v: &CppValue) -> (r: Option<Self>) {
        match v {
            CppValue::Str(x) => Some(x.clone()),
            _ => None,
        }
    }

    fn same(&self, other: &Self) -> (r: bool) {
        *self == *other
    }
}

/// The content of a list of elements.
pub open spec fn list_data<T: WasmMemory>(s: Seq<T>) -> Data {
    Data::Vector(T::cpp_elem(), s.map(|i: int, x: T| x.data()))
}

/// The content of a list of lists of elements.
pub open spec fn grid_data<T: WasmMemory>(s: Seq<Vec<T>>) -> Data {
    Data::Vector(
        CppType::Vector(Box::new(T::cpp_elem())),
        s.map(|i: int, row: Vec<T>| list_data(row@)),
    )
}

/// The C++ type of a value of element type `e` and the given shape.
pub open spec fn shape_type(e: CppType, shape: ContainerVariantType) -> CppType {
    match shape {
        ContainerVariantType::Single => e,
        ContainerVariantType::List => CppType::Vector(Box::new(e)),
        _ => CppType::Vector(Box::new(CppType::Vector(Box::new(e)))),
    }
}

fn shape_cpp_type(e: CppType, shape: ContainerVariantType) -> (t: CppType)
    ensures
        t == shape_type(e, shape),
{
    match shape {
        ContainerVariantType::Single => e,
        ContainerVariantType::List => CppType::Vector(Box::new(e)),
        _ => CppType::Vector(Box::new(CppType::Vector(Box::new(e)))),
    }
}

proof fn lemma_list_typed<T: WasmMemory>(s: Seq<T>)
    ensures
        type_of(list_data(s)) == CppType::Vector(Box::new(T::cpp_elem())),
        well_typed(list_data(s)),
{
    let d = list_data(s);
    let items = s.map(|i: int, x: T| x.data());
    assert forall|i: int| 0 <= i < items.len() implies type_of(#[trigger] items[i]) == T::cpp_elem()
        && well_typed(items[i]) by {
        s[i].lemma_typed();
    }
}

proof fn lemma_grid_typed<T: WasmMemory>(s: Seq<Vec<T>>)
    ensures
        type_of(grid_data(s)) == CppType::Vector(Box::new(CppType::Vector(Box::new(T::cpp_elem())))),
        well_typed(grid_data(s)),
{
    let rows = s.map(|i: int, row: Vec<T>| list_data(row@));
    assert forall|i: int| 0 <= i < rows.len() implies type_of(#[trigger] rows[i]) == CppType::Vector(
        Box::new(T::cpp_elem()),
    ) && well_typed(rows[i]) by {
        lemma_list_typed(s[i]@);
    }
}

fn list_to_cpp<T: WasmMemory>(v: &Vec<T>) -> (r: CppValue)
    ensures
        r.model() == list_data(v@),
{
    let mut out: Vec<CppValue> = Vec::new();
    let mut i: usize = 0;
    while i < v.len()
        invariant
            i <= v@.len(),
            out@.len() == i,
            forall|j: int| 0 <= j < i ==> (#[trigger] out@[j]).model() == v@[j].data(),
        decreases v@.len() - i,
    {
        out.push(v[i].to_cpp());
        i = i + 1;
    }
    proof {
        lemma_models(out@);
        assert(models(out@) =~= v@.map(|i: int, x: T| x.data()));
    }
    CppValue::Vector(T::elem_type(), out)
}

fn list_from_cpp<T: WasmMemory>(v: &CppValue) -> (r: Option<Vec<T>>)
    ensures
        match r {
            Some(x) => list_data(x@) == v.model(),
            None => !(type_of(v.model()) == CppType::Vector(Box::new(T::cpp_elem())) && well_typed(
                v.model(),
            )),
        },
{
    match v {
        CppValue::Vector(t, elems) => {
            let e = T::elem_type();
            if !t.same_as(&e) {
                return None;
            }
            let mut out: Vec<T> = Vec::new();
            let mut i: usize = 0;
            proof {
                lemma_models(elems@);
            }
            while i < elems.len()
                invariant
                    *v == CppValue::Vector(*t, *elems),
                    i <= elems@.len(),
                    out@.len() == i,
                    *t == T::cpp_elem(),
                    models(elems@).len() == elems@.len(),
                    forall|j: int| 0 <= j < elems@.len() ==> #[trigger] models(elems@)[j] == elems@[j].model(),
                    forall|j: int| 0 <= j < i ==> (#[trigger] out@[j]).data() == elems@[j].model(),
                decreases elems@.len() - i,
            {
                match T::from_cpp(&elems[i]) {
                    Some(x) => out.push(x),
                    None => {
                        proof {
                            if type_of(v.model()) == CppType::Vector(Box::new(T::cpp_elem())) && well_typed(v.model()) {
                                assert(type_of(models(elems@)[i as int]) == *t);
                            }
                        }
                        return None;
                    },
                }
                i = i + 1;
            }
            assert(out@.map(|i: int, x: T| x.data()) =~= models(elems@));
            Some(out)
        },
        _ => None,
    }
}

fn grid_from_cpp<T: WasmMemory>(v: &CppValue) -> (r: Option<Vec<Vec<T>>>)
    ensures
        match r {
            Some(x) => grid_data(x@) == v.model(),
            None => !(type_of(v.model()) == CppType::Vector(Box::new(CppType::Vector(Box::new(T::cpp_elem()))))
                && well_typed(v.model())),
        },
{
    match v {
        CppValue::Vector(t, rows) => {
            let e = CppType::Vector(Box::new(T::elem_type()));
            if !t.same_as(&e) {
                return None;
            }
            let mut out: Vec<Vec<T>> = Vec::new();
            let mut i: usize = 0;
            proof {
                lemma_models(rows@);
            }
            while i < rows.len()
                invariant
                    *v == CppValue::Vector(*t, *rows),
                    i <= rows@.len(),
                    out@.len() == i,
                    *t == CppType::Vector(Box::new(T::cpp_elem())),
                    models(rows@).len() == rows@.len(),
                    forall|j: int| 0 <= j < rows@.len() ==> #[trigger] models(rows@)[j] == rows@[j].model(),
                    forall|j: int| 0 <= j < i ==> list_data((#[trigger] out@[j])@) == rows@[j].model(),
                decreases rows@.len() - i,
            {
                match list_from_cpp::<T>(&rows[i]) {
                    Some(x) => out.push(x),
                    None => {
                        proof {
                            if type_of(v.model()) == CppType::Vector(Box::new(CppType::Vector(Box::new(T::cpp_elem()))))
                                && well_typed(v.model()) {
                                assert(type_of(models(rows@)[i as int]) == *t);
                                assert(well_typed(models(rows@)[i as int]));
                            }
                        }
                        return None;
                    },
                }
                i = i + 1;
            }
            assert(out@.map(|i: int, row: Vec<T>| list_data(row@)) =~= models(rows@));
            Some(out)
        },
        _ => None,
    }
}

fn grid_to_cpp<T: WasmMemory>(v: &Vec<Vec<T>>) -> (r: CppValue)
    ensures
        r.model() == grid_data(v@),
{
    let mut out: Vec<CppValue> = Vec::new();
    let mut i: usize = 0;
    while i < v.len()
        invariant
            i <= v@.len(),
            out@.len() == i,
            forall|j: int| 0 <= j < i ==> (#[trigger] out@[j]).model() == list_data(v@[j]@),
        decreases v@.len() - i,
    {
        out.push(list_to_cpp(&v[i]));
        i = i + 1;
    }
    proof {
        lemma_models(out@);
        assert(models(out@) =~= v@.map(|i: int, row: Vec<T>| list_data(row@)));
    }
    CppValue::Vector(CppType::Vector(Box::new(T::elem_type())), out)
}

impl<T: WasmMemory> ContainerVariant<T> {
    pub open spec fn shape(&self) -> ContainerVariantType {
        match self {
            ContainerVariant::Graph(_) => ContainerVariantType::Graph,
            ContainerVariant::Grid(_) => ContainerVariantType::Grid,
            ContainerVariant::List(_) => ContainerVariantType::List,
            ContainerVariant::Single(_) => ContainerVariantType::Single,
        }
    }

    /// The content of the value; a grid and a graph are both lists of lists.
    pub open spec fn data(&self) -> Data {
        match self {
            ContainerVariant::Graph(g) => grid_data(g@),
            ContainerVariant::Grid(g) => grid_data(g@),
            ContainerVariant::List(l) => list_data(l@),
            ContainerVariant::Single(x) => x.data(),
        }
    }

    pub proof fn lemma_typed(&self)
        ensures
            type_of(self.data()) == shape_type(T::cpp_elem(), self.shape()),
            well_typed(self.data()),
    {
        match self {
            ContainerVariant::Graph(g) => lemma_grid_typed(g@),
            ContainerVariant::Grid(g) => lemma_grid_typed(g@),
            ContainerVariant::List(l) => lemma_list_typed(l@),
            ContainerVariant::Single(x) => x.lemma_typed(),
        }
    }

    pub fn shape_of(&self) -> (s: ContainerVariantType)
        ensures
            s == self.shape(),
    {
        match self {
            ContainerVariant::Graph(_) => ContainerVariantType::Graph,
            ContainerVariant::Grid(_) => ContainerVariantType::Grid,
            ContainerVariant::List(_) => ContainerVariantType::List,
            ContainerVariant::Single(_) => ContainerVariantType::Single,
        }
    }

    /// The value with its C++ layout.
    pub fn to_cpp(&self) -> (v: CppValue)
        ensures
            v.model() == self.data(),
    {
        match self {
            ContainerVariant::Graph(g) => grid_to_cpp(g),
            ContainerVariant::Grid(g) => grid_to_cpp(g),
            ContainerVariant::List(l) => list_to_cpp(l),
            ContainerVariant::Single(x) => x.to_cpp(),
        }
    }

    /// The value of the given shape that a C++ value holds, if it holds one.
    pub fn from_cpp(shape: ContainerVariantType, v: &CppValue) -> (r: Option<Self>)
        ensures
            match r {
                Some(c) => c.data() == v.model() && c.shape() == shape,
                None => !(type_of(v.model()) == shape_type(T::cpp_elem(), shape) && well_typed(v.model())),
            },
    {
        match shape {
            ContainerVariantType::Graph => match grid_from_cpp::<T>(v) {
                Some(g) => Some(ContainerVariant::Graph(g)),
                None => None,
            },
            ContainerVariantType::Grid => match grid_from_cpp::<T>(v) {
                Some(g) => Some(ContainerVariant::Grid(g)),
                None => None,
            },
            ContainerVariantType::List => match list_from_cpp::<T>(v) {
                Some(l) => Some(ContainerVariant::List(l)),
                None => None,
            },
            ContainerVariantType::Single => match T::from_cpp(v) {
                Some(x) => Some(ContainerVariant::Single(x)),
                None => None,
            },
        }
    }
}

impl FunctionValue {
    /// The content of the value.
    pub open spec fn data(&self) -> Data {
        match self {
            FunctionValue::String(c) => c.data(),
            FunctionValue::Int(c) => c.data(),
            FunctionValue::Long(c) => c.data(),
            FunctionValue::Float(c) => c.data(),
            FunctionValue::Double(c) => c.data(),
            FunctionValue::Char(c) => c.data(),
            FunctionValue::Bool(c) => c.data(),
        }
    }

    /// The type of the value.
    pub open spec fn value_type(&self) -> FunctionType {
        match self {
            FunctionValue::String(c) => FunctionType::String(c.shape()),
            FunctionValue::Int(c) => FunctionType::Int(c.shape()),
            FunctionValue::Long(c) => FunctionType::Long(c.shape()),
            FunctionValue::Float(c) => FunctionType::Float(c.shape()),
            FunctionValue::Double(c) => FunctionType::Double(c.shape()),
            FunctionValue::Char(c) => FunctionType::Char(c.shape()),
            FunctionValue::Bool(c) => FunctionType::Bool(c.shape()),
        }
    }

    pub proof fn lemma_typed(&self)
        ensures
            type_of(self.data()) == self.value_type().cpp(),
            well_typed(self.data()),
    {
        match self {
            FunctionValue::String(c) => c.lemma_typed(),
            FunctionValue::Int(c) => c.lemma_typed(),
            FunctionValue::Long(c) => c.lemma_typed(),
            FunctionValue::Float(c) => c.lemma_typed(),
            FunctionValue::Double(c) => c.lemma_typed(),
            FunctionValue::Char(c) => c.lemma_typed(),
            FunctionValue::Bool(c) => c.lemma_typed(),
        }
    }

    /// The type of the value.
    pub fn function_type(&self) -> (t: FunctionType)
        ensures
            t == self.value_type(),
    {
        match self {
            FunctionValue::String(c) => FunctionType::String(c.shape_of()),
            FunctionValue::Int(c) => FunctionType::Int(c.shape_of()),
            FunctionValue::Long(c) => FunctionType::Long(c.shape_of()),
            FunctionValue::Float(c) => FunctionType::Float(c.shape_of()),
            FunctionValue::Double(c) => FunctionType::Double(c.shape_of()),
            FunctionValue::Char(c) => FunctionType::Char(c.shape_of()),
            FunctionValue::Bool(c) => FunctionType::Bool(c.shape_of()),
        }
    }

    /// The value with its C++ layout, ready to be stored in guest memory.
    pub fn to_cpp(&self) -> (v: CppValue)
        ensures
            v.model() == self.data(),
    {
        match self {
            FunctionValue::String(c) => c.to_cpp(),
            FunctionValue::Int(c) => c.to_cpp(),
            FunctionValue::Long(c) => c.to_cpp(),
            FunctionValue::Float(c) => c.to_cpp(),
            FunctionValue::Double(c) => c.to_cpp(),
            FunctionValue::Char(c) => c.to_cpp(),
            FunctionValue::Bool(c) => c.to_cpp(),
        }
    }
}

impl FunctionType {
    pub open spec fn shape(&self) -> ContainerVariantType {
        match self {
            FunctionType::String(s) => *s,
            FunctionType::Int(s) => *s,
            FunctionType::Long(s) => *s,
            FunctionType::Float(s) => *s,
            FunctionType::Double(s) => *s,
            FunctionType::Char(s) => *s,
            FunctionType::Bool(s) => *s,
        }
    }

    /// The C++ type of an element.
    pub open spec fn elem(&self) -> CppType {
        match self {
            FunctionType::String(_) => CppType::Str,
            FunctionType::Int(_) => CppType::Int,
            FunctionType::Long(_) => CppType::Long,
            FunctionType::Float(_) => CppType::Float,
            FunctionType::Double(_) => CppType::Double,
            FunctionType::Char(_) => CppType::Char,
            FunctionType::Bool(_) => CppType::Bool,
        }
    }

    /// The C++ type of a value of this type: a list is a `std::vector`, a grid
    /// and a graph a `std::vector` of `std::vector`s.
    pub open spec fn cpp(&self) -> CppType {
        shape_type(self.elem(), self.shape())
    }

    pub fn cpp_type(&self) -> (t: CppType)
        ensures
            t == self.cpp(),
    {
        match self {
            FunctionType::String(s) => shape_cpp_type(CppType::Str, *s),
            FunctionType::Int(s) => shape_cpp_type(CppType::Int, *s),
            FunctionType::Long(s) => shape_cpp_type(CppType::Long, *s),
            FunctionType::Float(s) => shape_cpp_type(CppType::Float, *s),
            FunctionType::Double(s) => shape_cpp_type(CppType::Double, *s),
            FunctionType::Char(s) => shape_cpp_type(CppType::Char, *s),
            FunctionType::Bool(s) => shape_cpp_type(CppType::Bool, *s),
        }
    }

    /// Reads a value of this type stored at `offset` in the memory snapshot
    /// `mem`.
    pub fn from_memory(&self, mem: &[u8], offset: usize) -> (r: Result<FunctionValue, LayoutError>)
        ensures
            match r {
                Ok(v) => spec_decode(mem@, offset as int, self.cpp()) == Ok::<Data, LayoutError>(v.data())
                    && v.value_type() == *self,
                Err(e) => spec_decode(mem@, offset as int, self.cpp()) == Err::<Data, LayoutError>(e),
            },
    {
        let t = self.cpp_type();
        proof {
            let e = self.elem();
            assert(bounded_type(e));
            assert(bounded_type(CppType::Vector(Box::new(e))));
            assert(bounded_type(CppType::Vector(Box::new(CppType::Vector(Box::new(e))))));
        }
        let cv = match decode(mem, offset, &t) {
            Ok(cv) => cv,
            Err(e) => {
                return Err(e);
            },
        };
        proof {
            lemma_decode_typed(mem@, offset as int, t);
        }
        let r = match self {
            FunctionType::String(s) => match ContainerVariant::<String>::from_cpp(*s, &cv) {
                Some(c) => Some(FunctionValue::String(c)),
                None => None,
            },
            FunctionType::Int(s) => match ContainerVariant::<i32>::from_cpp(*s, &cv) {
                Some(c) => Some(FunctionValue::Int(c)),
                None => None,
            },
            FunctionType::Long(s) => match ContainerVariant::<i64>::from_cpp(*s, &cv) {
                Some(c) => Some(FunctionValue::Long(c)),
                None => None,
            },
            FunctionType::Float(s) => match ContainerVariant::<u32>::from_cpp(*s, &cv) {
                Some(c) => Some(FunctionValue::Float(c)),
                None => None,
            },
            FunctionType::Double(s) => match ContainerVariant::<u64>::from_cpp(*s, &cv) {
                Some(c) => Some(FunctionValue::Double(c)),
                None => None,
            },
            FunctionType::Char(s) => match ContainerVariant::<char>::from_cpp(*s, &cv) {
                Some(c) => Some(FunctionValue::Char(c)),
                None => None,
            },
            FunctionType::Bool(s) => match ContainerVariant::<bool>::from_cpp(*s, &cv) {
                Some(c) => Some(FunctionValue::Bool(c)),
                None => None,
            },
        };
        match r {
            Some(v) => Ok(v),
            None => {
                assert(false);
                Err(LayoutError::OutOfBounds)
            },
        }
    }
}

/* ---------------------------------------------------------------------- */
/* Comparing values                                                       */
/* ---------------------------------------------------------------------- */

proof fn lemma_list_data_injective<T: WasmMemory>(a: Seq<T>, b: Seq<T>)
    requires
        list_data(a) == list_data(b),
    ensures
        a.len() == b.len(),
        forall|i: int| 0 <= i < a.len() ==> (#[trigger] a[i]).data() == b[i].data(),
{
    let ma = a.map(|i: int, x: T| x.data());
    let mb = b.map(|i: int, x: T| x.data());
    assert(ma == mb);
    assert forall|i: int| 0 <= i < a.len() implies (#[trigger] a[i]).data() == b[i].data() by {
        assert(ma[i] == mb[i]);
    }
}

fn list_same<T: WasmMemory>(a: &Vec<T>, b: &Vec<T>) -> (r: bool)
    ensures
        r == (list_data(a@) == list_data(b@)),
{
    if a.len() != b.len() {
        proof {
            if list_data(a@) == list_data(b@) {
                lemma_list_data_injective(a@, b@);
            }
        }
        return false;
    }
    let mut i: usize = 0;
    while i < a.len()
        invariant
            i <= a@.len(),
            a@.len() == b@.len(),
            forall|j: int| 0 <= j < i ==> (#[trigger] a@[j]).data() == b@[j].data(),
        decreases a@.len() - i,
    {
        if !a[i].same(&b[i]) {
            proof {
                if list_data(a@) == list_data(b@) {
                    lemma_list_data_injective(a@, b@);
                }
            }
            return false;
        }
        i = i + 1;
    }
    assert(a@.map(|i: int, x: T| x.data()) =~= b@.map(|i: int, x: T| x.data()));
    true
}

fn grid_same<T: WasmMemory>(a: &Vec<Vec<T>>, b: &Vec<Vec<T>>) -> (r: bool)
    ensures
        r == (grid_data(a@) == grid_data(b@)),
{
    let ghost ma = a@.map(|i: int, row: Vec<T>| list_data(row@));
    let ghost mb = b@.map(|i: int, row: Vec<T>| list_data(row@));
    if a.len() != b.len() {
        proof {
            if grid_data(a@) == grid_data(b@) {
                assert(ma.len() == mb.len());
            }
        }
        return false;
    }
    let mut i: usize = 0;
    while i < a.len()
        invariant
            i <= a@.len(),
            a@.len() == b@.len(),
            ma == a@.map(|i: int, row: Vec<T>| list_data(row@)),
            mb == b@.map(|i: int, row: Vec<T>| list_data(row@)),
            forall|j: int| 0 <= j < i ==> list_data((#[trigger] a@[j])@) == list_data(b@[j]@),
        decreases a@.len() - i,
    {
        if !list_same(&a[i], &b[i]) {
            proof {
                if grid_data(a@) == grid_data(b@) {
                    assert(ma[i as int] == mb[i as int]);
                }
            }
            return false;
        }
        i = i + 1;
    }
    assert(ma =~= mb);
    true
}

impl<T: WasmMemory> ContainerVariant<T> {
    /// Whether the two values have the same shape and the same elements.
    pub fn same_value(&self, other: &Self) -> (r: bool)
        ensures
            r == (self.shape() == other.shape() && self.data() == other.data()),
    {
        match (self, other) {
            (ContainerVariant::Graph(a), ContainerVariant::Graph(b)) => grid_same(a, b),
            (ContainerVariant::Grid(a), ContainerVariant::Grid(b)) => grid_same(a, b),
            (ContainerVariant::List(a), ContainerVariant::List(b)) => list_same(a, b),
            (ContainerVariant::Single(a), ContainerVariant::Single(b)) => a.same(b),
            _ => false,
        }
    }
}

/// Whether an output matches the expected one: `None` where the two are single
/// `double`s, which match when they differ by less than 1e-9 (a comparison of
/// floating-point numbers, left to the caller). Strings, `int`s, `long`s,
/// `char`s and `bool`s match when they have the same shape and elements; values
/// of different element types never match, and neither do `float`s or `double`s
/// that are not single.
pub open spec fn spec_values_match(a: FunctionValue, b: FunctionValue) -> Option<bool> {
    match (a, b) {
        (FunctionValue::Double(ContainerVariant::Single(_)), FunctionValue::Double(ContainerVariant::Single(_))) => None,
        (FunctionValue::String(l), FunctionValue::String(r)) => Some(l.shape() == r.shape() && l.data() == r.data()),
        (FunctionValue::Int(l), FunctionValue::Int(r)) => Some(l.shape() == r.shape() && l.data() == r.data()),
        (FunctionValue::Long(l), FunctionValue::Long(r)) => Some(l.shape() == r.shape() && l.data() == r.data()),
        (FunctionValue::Char(l), FunctionValue::Char(r)) => Some(l.shape() == r.shape() && l.data() == r.data()),
        (FunctionValue::Bool(l), FunctionValue::Bool(r)) => Some(l.shape() == r.shape() && l.data() == r.data()),
        _ => Some(false),
    }
}

impl FunctionValue {
    /// Whether `self` matches `other` (see `spec_values_match`).
    pub fn values_match(&self, other: &FunctionValue) -> (r: Option<bool>)
        ensures
            r == spec_values_match(*self, *other),
    {
        match (self, other) {
            (FunctionValue::Double(ContainerVariant::Single(_)), FunctionValue::Double(ContainerVariant::Single(_))) => None,
            (FunctionValue::String(l), FunctionValue::String(r)) => Some(l.same_value(r)),
            (FunctionValue::Int(l), FunctionValue::Int(r)) => Some(l.same_value(r)),
            (FunctionValue::Long(l), FunctionValue::Long(r)) => Some(l.same_value(r)),
            (FunctionValue::Char(l), FunctionValue::Char(r)) => Some(l.same_value(r)),
            (FunctionValue::Bool(l), FunctionValue::Bool(r)) => Some(l.same_value(r)),
            _ => Some(false),
        }
    }
}

/* ---------------------------------------------------------------------- */
/* Size of an input                                                       */
/* ---------------------------------------------------------------------- */

/// How large a list, grid or graph is: its length, its number of cells (rows
/// times the length of the first row), its number of nodes.
pub open spec fn container_count<T>(c: ContainerVariant<T>) -> int {
    match c {
        ContainerVariant::Graph(g) => g@.len() as int,
        ContainerVariant::Grid(g) => (g@[0]@.len() * g@.len()) as int,
        ContainerVariant::List(l) => l@.len() as int,
        ContainerVariant::Single(_) => 1,
    }
}

pub open spec fn countable<T>(c: ContainerVariant<T>) -> bool {
    c matches ContainerVariant::Grid(g) ==> g@.len() > 0 && g@[0]@.len() * g@.len() <= usize::MAX
}

fn container_count_of<T>(c: &ContainerVariant<T>) -> (n: u64)
    requires
        countable(*c),
        !(c is Single),
    ensures
        n == container_count(*c),
{
    match c {
        ContainerVariant::Graph(g) => g.len() as u64,
        ContainerVariant::Grid(g) => (g[0].len() * g.len()) as u64,
        ContainerVariant::List(l) => l.len() as u64,
        ContainerVariant::Single(_) => 1,
    }
}

/// The magnitude of an input by which the running time of a solution is
/// measured: the byte length of a single string, the absolute value of a
/// single integer, 1 for a single character or boolean, and the size of a
/// list, grid or graph. `None` for a single floating-point number, whose
/// absolute value is a floating-point computation left to the caller.
pub open spec fn spec_scale(v: FunctionValue) -> Option<int> {
    match v {
        FunctionValue::String(ContainerVariant::Single(s)) => Some(encode_utf8(s@).len() as int),
        FunctionValue::Int(ContainerVariant::Single(x)) => Some(if x < 0 { -x } else { x as int }),
        FunctionValue::Long(ContainerVariant::Single(x)) => Some(if x < 0 { -x } else { x as int }),
        FunctionValue::Float(ContainerVariant::Single(_)) => None,
        FunctionValue::Double(ContainerVariant::Single(_)) => None,
        FunctionValue::Char(ContainerVariant::Single(_)) => Some(1),
        FunctionValue::Bool(ContainerVariant::Single(_)) => Some(1),
        FunctionValue::String(c) => Some(container_count(c)),
        FunctionValue::Int(c) => Some(container_count(c)),
        FunctionValue::Long(c) => Some(container_count(c)),
        FunctionValue::Float(c) => Some(container_count(c)),
        FunctionValue::Double(c) => Some(container_count(c)),
        FunctionValue::Char(c) => Some(container_count(c)),
        FunctionValue::Bool(c) => Some(container_count(c)),
    }
}

/// The inputs on which the magnitude is defined: a grid has a first row and
/// its cell count fits in `usize`, and the absolute value of a single integer
/// fits in its type.
pub open spec fn scalable(v: FunctionValue) -> bool {
    match v {
        FunctionValue::String(c) => countable(c),
        FunctionValue::Int(c) => countable(c) && (c matches ContainerVariant::Single(x) ==> x != i32::MIN),
        FunctionValue::Long(c) => countable(c) && (c matches ContainerVariant::Single(x) ==> x != i64::MIN),
        FunctionValue::Float(c) => countable(c),
        FunctionValue::Double(c) => countable(c),
        FunctionValue::Char(c) => countable(c),
        FunctionValue::Bool(c) => countable(c),
    }
}

impl FunctionValue {
    /// The magnitude of the input (see `spec_scale`).
    pub fn scaling_count(&self) -> (r: Option<u64>)
        requires
            scalable(*self),
        ensures
            r matches Some(n) ==> spec_scale(*self) == Some(n as int),
            r is None ==> spec_scale(*self) is None,
    {
        match self {
            FunctionValue::String(ContainerVariant::Single(s)) => Some(s.as_str().as_bytes().len() as u64),
            FunctionValue::Int(ContainerVariant::Single(x)) => Some(if *x < 0 { (-(*x as i64)) as u64 } else { *x as u64 }),
            FunctionValue::Long(ContainerVariant::Single(x)) => Some(if *x < 0 { (-*x) as u64 } else { *x as u64 }),
            FunctionValue::Float(ContainerVariant::Single(_)) => None,
            FunctionValue::Double(ContainerVariant::Single(_)) => None,
            FunctionValue::Char(ContainerVariant::Single(_)) => Some(1),
            FunctionValue::Bool(ContainerVariant::Single(_)) => Some(1),
            FunctionValue::String(c) => Some(container_count_of(c)),
            FunctionValue::Int(c) => Some(container_count_of(c)),
            FunctionValue::Long(c) => Some(container_count_of(c)),
            FunctionValue::Float(c) => Some(container_count_of(c)),
            FunctionValue::Double(c) => Some(container_count_of(c)),
            FunctionValue::Char(c) => Some(container_count_of(c)),
            FunctionValue::Bool(c) => Some(container_count_of(c)),
        }
    }
}

/* ---------------------------------------------------------------------- */
/* Calling a function                                                     */
/* ---------------------------------------------------------------------- */

/// A call of a judged function: its name, its arguments and the type of its
/// result.
#[derive(Debug, Clone, PartialEq)]
pub struct WasmFunctionCall {
    pub name: String,
    pub arguments: Vec<FunctionValue>,
    pub return_type: FunctionType,
}

/// A WebAssembly value; floating-point numbers by their bits.
#[derive(Clone, Copy, Debug, PartialEq, Eq, Structural)]
pub enum WasmVal {
    I32(i32),
    I64(i64),
    F32(u32),
    F64(u64),
}

/// The kind of a WebAssembly value.
#[derive(Clone, Copy, Debug, PartialEq, Eq, Structural)]
pub enum WasmValKind {
    I32,
    I64,
    F32,
    F64,
}

pub open spec fn kind_of(v: WasmVal) -> WasmValKind {
    match v {
        WasmVal::I32(_) => WasmValKind::I32,
        WasmVal::I64(_) => WasmValKind::I64,
        WasmVal::F32(_) => WasmValKind::F32,
        WasmVal::F64(_) => WasmValKind::F64,
    }
}

/// How one argument reaches the function.
#[derive(Debug, PartialEq)]
pub enum ArgumentPlan {
    /// As a parameter of its own.
    Direct(WasmVal),
    /// Stored in guest memory (see `allocation_sizes` and `plan_writes`); the
    /// parameter is the address of the value.
    Stored(CppValue),
}

/// How a call is carried out.
#[derive(Debug, PartialEq)]
pub struct CallPlan {
    /// The kind of the value the function returns, when the result is a single
    /// `int`, `long`, `float`, `double`, `char` or `bool`. Otherwise the
    /// function takes, before its arguments, the address where it stores its
    /// result, and that address is 0.
    pub result: Option<WasmValKind>,
    pub arguments: Vec<ArgumentPlan>,
}

/// The kind of the value a function returns directly, if it returns one.
pub open spec fn result_kind(t: FunctionType) -> Option<WasmValKind> {
    match t {
        FunctionType::Int(ContainerVariantType::Single) => Some(WasmValKind::I32),
        FunctionType::Char(ContainerVariantType::Single) => Some(WasmValKind::I32),
        FunctionType::Bool(ContainerVariantType::Single) => Some(WasmValKind::I32),
        FunctionType::Long(ContainerVariantType::Single) => Some(WasmValKind::I64),
        FunctionType::Float(ContainerVariantType::Single) => Some(WasmValKind::F32),
        FunctionType::Double(ContainerVariantType::Single) => Some(WasmValKind::F64),
        _ => None,
    }
}

/// The parameter that passes a single number, character or boolean directly.
pub open spec fn direct_param(v: FunctionValue) -> Option<WasmVal> {
    match v {
        FunctionValue::Int(ContainerVariant::Single(x)) => Some(WasmVal::I32(x)),
        FunctionValue::Long(ContainerVariant::Single(x)) => Some(WasmVal::I64(x)),
        FunctionValue::Float(ContainerVariant::Single(x)) => Some(WasmVal::F32(x)),
        FunctionValue::Double(ContainerVariant::Single(x)) => Some(WasmVal::F64(x)),
        FunctionValue::Char(ContainerVariant::Single(c)) => Some(WasmVal::I32(c as i32)),
        FunctionValue::Bool(ContainerVariant::Single(b)) => Some(WasmVal::I32(if b { 1 } else { 0 })),
        _ => None,
    }
}

/// The argument is passed as planned.
pub open spec fn planned(v: FunctionValue, p: ArgumentPlan) -> bool {
    match direct_param(v) {
        Some(w) => p == ArgumentPlan::Direct(w),
        None => p matches ArgumentPlan::Stored(c) && c.model() == v.data(),
    }
}

/// The parameters of the call: the address of the result when the result is
/// not returned directly, then one per argument, the addresses of the stored
/// arguments being taken from `addrs` in order.
pub open spec fn call_params(result: Option<WasmValKind>, args: Seq<ArgumentPlan>, addrs: Seq<u32>) -> Seq<WasmVal> {
    (if result is None { seq![WasmVal::I32(0)] } else { Seq::empty() }) + arg_params(args, addrs)
}

pub open spec fn arg_params(args: Seq<ArgumentPlan>, addrs: Seq<u32>) -> Seq<WasmVal>
    decreases args.len(),
{
    if args.len() == 0 {
        Seq::empty()
    } else {
        match args[0] {
            ArgumentPlan::Direct(w) => seq![w] + arg_params(args.drop_first(), addrs),
            ArgumentPlan::Stored(_) => seq![WasmVal::I32(addrs[0] as i32)] + arg_params(
                args.drop_first(),
                addrs.drop_first(),
            ),
        }
    }
}

/// The number of arguments stored in memory.
pub open spec fn stored_count(args: Seq<ArgumentPlan>) -> nat
    decreases args.len(),
{
    if args.len() == 0 {
        0
    } else {
        (if args[0] is Stored { 1nat } else { 0nat }) + stored_count(args.drop_first())
    }
}

/// The result of a function that returns it directly.
pub open spec fn direct_result(t: FunctionType, w: WasmVal) -> Option<FunctionValue> {
    match (t, w) {
        (FunctionType::Int(ContainerVariantType::Single), WasmVal::I32(x)) => Some(
            FunctionValue::Int(ContainerVariant::Single(x)),
        ),
        (FunctionType::Long(ContainerVariantType::Single), WasmVal::I64(x)) => Some(
            FunctionValue::Long(ContainerVariant::Single(x)),
        ),
        (FunctionType::Char(ContainerVariantType::Single), WasmVal::I32(x)) => Some(
            FunctionValue::Char(ContainerVariant::Single(((x as u8) as u32) as char)),
        ),
        (FunctionType::Bool(ContainerVariantType::Single), WasmVal::I32(x)) => Some(
            FunctionValue::Bool(ContainerVariant::Single(x != 0)),
        ),
        (FunctionType::Float(ContainerVariantType::Single), WasmVal::F32(x)) => Some(
            FunctionValue::Float(ContainerVariant::Single(x)),
        ),
        (FunctionType::Double(ContainerVariantType::Single), WasmVal::F64(x)) => Some(
            FunctionValue::Double(ContainerVariant::Single(x)),
        ),
        _ => None,
    }
}

/// Why the result of a call could not be had.
#[derive(Clone, Copy, Debug, PartialEq, Eq, Structural)]
pub enum CallError {
    /// The result could not be read from guest memory.
    Layout(LayoutError),
}

fn result_kind_of(t: FunctionType) -> (r: Option<WasmValKind>)
    ensures
        r == result_kind(t),
{
    match t {
        FunctionType::Int(ContainerVariantType::Single) => Some(WasmValKind::I32),
        FunctionType::Char(ContainerVariantType::Single) => Some(WasmValKind::I32),
        FunctionType::Bool(ContainerVariantType::Single) => Some(WasmValKind::I32),
        FunctionType::Long(ContainerVariantType::Single) => Some(WasmValKind::I64),
        FunctionType::Float(ContainerVariantType::Single) => Some(WasmValKind::F32),
        FunctionType::Double(ContainerVariantType::Single) => Some(WasmValKind::F64),
        _ => None,
    }
}

fn plan_argument(v: &FunctionValue) -> (p: ArgumentPlan)
    ensures
        planned(*v, p),
{
    match v {
        FunctionValue::Int(ContainerVariant::Single(x)) => ArgumentPlan::Direct(WasmVal::I32(*x)),
        FunctionValue::Long(ContainerVariant::Single(x)) => ArgumentPlan::Direct(WasmVal::I64(*x)),
        FunctionValue::Float(ContainerVariant::Single(x)) => ArgumentPlan::Direct(WasmVal::F32(*x)),
        FunctionValue::Double(ContainerVariant::Single(x)) => ArgumentPlan::Direct(WasmVal::F64(*x)),
        FunctionValue::Char(ContainerVariant::Single(c)) => ArgumentPlan::Direct(WasmVal::I32(*c as i32)),
        FunctionValue::Bool(ContainerVariant::Single(b)) => ArgumentPlan::Direct(
            WasmVal::I32(if *b { 1 } else { 0 }),
        ),
        _ => ArgumentPlan::Stored(v.to_cpp()),
    }
}

impl WasmFunctionCall {
    pub fn new(name: &str, arguments: Vec<FunctionValue>, return_type: FunctionType) -> (r: Self)
        ensures
            r.name@ == name@,
            r.arguments@ == arguments@,
            r.return_type == return_type,
    {
        WasmFunctionCall { name: String::from_str(name), arguments, return_type }
    }

    /// How the call is carried out: whether the result comes back directly,
    /// and how each argument is passed.
    pub fn plan(&self) -> (p: CallPlan)
        ensures
            p.result == result_kind(self.return_type),
            p.arguments@.len() == self.arguments@.len(),
            forall|i: int| 0 <= i < p.arguments@.len() ==> planned(self.arguments@[i], #[trigger] p.arguments@[i]),
    {
        let mut arguments: Vec<ArgumentPlan> = Vec::new();
        let mut i: usize = 0;
        while i < self.arguments.len()
            invariant
                i <= self.arguments@.len(),
                arguments@.len() == i,
                forall|j: int| 0 <= j < i ==> planned(self.arguments@[j], #[trigger] arguments@[j]),
            decreases self.arguments@.len() - i,
        {
            arguments.push(plan_argument(&self.arguments[i]));
            i = i + 1;
        }
        CallPlan { result: result_kind_of(self.return_type), arguments }
    }
}

impl CallPlan {
    /// The parameters of the call, given the addresses at which the stored
    /// arguments were placed, in order.
    pub fn params(&self, addrs: &Vec<u32>) -> (r: Vec<WasmVal>)
        requires
            addrs@.len() == stored_count(self.arguments@),
        ensures
            r@ == call_params(self.result, self.arguments@, addrs@),
    {
        let mut out: Vec<WasmVal> = Vec::new();
        if self.result.is_none() {
            out.push(WasmVal::I32(0));
        }
        let ghost prefix = out@;
        let mut i: usize = 0;
        let mut k: usize = 0;
        let n_addrs = addrs.len();
        assert(self.arguments@.skip(0) =~= self.arguments@);
        assert(addrs@.skip(0) =~= addrs@);
        while i < self.arguments.len()
            invariant
                i <= self.arguments@.len(),
                k <= addrs@.len(),
                n_addrs == addrs@.len(),
                stored_count(self.arguments@.skip(i as int)) == addrs@.len() - k,
                prefix == (if self.result is None { seq![WasmVal::I32(0)] } else { Seq::<WasmVal>::empty() }),
                prefix + arg_params(self.arguments@, addrs@) == out@ + arg_params(
                    self.arguments@.skip(i as int),
                    addrs@.skip(k as int),
                ),
            decreases self.arguments@.len() - i,
        {
            let ghost rest = self.arguments@.skip(i as int);
            let ghost ra = addrs@.skip(k as int);
            assert(rest.drop_first() =~= self.arguments@.skip(i + 1));
            assert(rest[0] == self.arguments@[i as int]);
            match &self.arguments[i] {
                ArgumentPlan::Direct(w) => {
                    let ghost before = out@;
                    out.push(*w);
                    assert(before + arg_params(rest, ra) =~= out@ + arg_params(rest.drop_first(), ra));
                },
                ArgumentPlan::Stored(_) => {
                    assert(k < n_addrs);
                    assert(ra.drop_first() =~= addrs@.skip(k + 1));
                    assert(ra[0] == addrs@[k as int]);
                    let ghost before = out@;
                    out.push(WasmVal::I32(#[verifier::truncate] (addrs[k] as i32)));
                    assert(before + arg_params(rest, ra) =~= out@ + arg_params(rest.drop_first(), ra.drop_first()));
                    k = k + 1;
                },
            }
            i = i + 1;
        }
        assert(self.arguments@.skip(i as int) =~= Seq::<ArgumentPlan>::empty());
        assert(out@ + arg_params(Seq::<ArgumentPlan>::empty(), addrs@.skip(k as int)) =~= out@);
        out
    }
}

/// The result of a call of a function whose result has type `t`: the value it
/// returned directly (`results[0]`), or else the value it stored at address 0
/// of its memory, `mem` being a snapshot of that memory after the call.
pub fn call_result(t: FunctionType, results: &Vec<WasmVal>, mem: &[u8]) -> (r: Result<FunctionValue, CallError>)
    requires
        result_kind(t) matches Some(k) ==> results@.len() >= 1 && kind_of(results@[0]) == k,
    ensures
        match result_kind(t) {
            Some(_) => r matches Ok(v) && direct_result(t, results@[0]) == Some(v),
            None => match r {
                Ok(v) => spec_decode(mem@, 0, t.cpp()) == Ok::<Data, LayoutError>(v.data()) && v.value_type() == t,
                Err(CallError::Layout(e)) => spec_decode(mem@, 0, t.cpp()) == Err::<Data, LayoutError>(e),
            },
        },
{
    match (t, results.len()) {
        (FunctionType::Int(ContainerVariantType::Single), _) => match results[0] {
            WasmVal::I32(x) => Ok(FunctionValue::Int(ContainerVariant::Single(x))),
            _ => Err(CallError::Layout(LayoutError::OutOfBounds)),
        },
        (FunctionType::Long(ContainerVariantType::Single), _) => match results[0] {
            WasmVal::I64(x) => Ok(FunctionValue::Long(ContainerVariant::Single(x))),
            _ => Err(CallError::Layout(LayoutError::OutOfBounds)),
        },
        (FunctionType::Char(ContainerVariantType::Single), _) => match results[0] {
            WasmVal::I32(x) => Ok(FunctionValue::Char(ContainerVariant::Single(byte_char(#[verifier::truncate] (x as u8))))),
            _ => Err(CallError::Layout(LayoutError::OutOfBounds)),
        },
        (FunctionType::Bool(ContainerVariantType::Single), _) => match results[0] {
            WasmVal::I32(x) => Ok(FunctionValue::Bool(ContainerVariant::Single(x != 0))),
            _ => Err(CallError::Layout(LayoutError::OutOfBounds)),
        },
        (FunctionType::Float(ContainerVariantType::Single), _) => match results[0] {
            WasmVal::F32(x) => Ok(FunctionValue::Float(ContainerVariant::Single(x))),
            _ => Err(CallError::Layout(LayoutError::OutOfBounds)),
        },
        (FunctionType::Double(ContainerVariantType::Single), _) => match results[0] {
            WasmVal::F64(x) => Ok(FunctionValue::Double(ContainerVariant::Single(x))),
            _ => Err(CallError::Layout(LayoutError::OutOfBounds)),
        },
        _ => match t.from_memory(mem, 0) {
            Ok(v) => Ok(v),
            Err(e) => Err(CallError::Layout(e)),
        },
    }
}

fn byte_char(b: u8) -> (c: char)
    ensures
        c == ((b as u32) as char),
{
    b as char
}

} // verus!
