use vstd::prelude::*;
use crate::attributes::{Attribute, AttributeView, attributes_view, clone_attributes, try_get_atributes, spec_get_atributes, lemma_attribute_list_prefix, lemma_attribute_list_advances, lemma_attribute_list_len};
use crate::constpool::{ConstantPoolTags, ConstantView, try_get_constant_pool, spec_constant_pool, clone_constants, lemma_cp_entries_prefix, lemma_cp_entries_len};
use crate::error::ClassError;
use crate::method::{method_info, MethodView};
use crate::reader::{be_u16, u16_at, u32_at, copy_bytes, ByteReader, lemma_u16_prefix, lemma_u32_prefix};
use crate::stubs::{Interfaces, Fields};

verus! {

/// A loaded class file.
#[derive(Debug)]
pub struct class {
    /// (major, minor).
    pub version: (u16, u16),
    pub constant_pool: Vec<ConstantPoolTags>,
    pub accessflag: u16,
    pub this_class: u16,
    pub super_class: u16,
    pub interfaces: Vec<Interfaces>,
    pub fields: Vec<Fields>,
    pub methods: Vec<method_info>,
    pub classattributes: Vec<Attribute>,
}

/// What a class holds, as mathematical values.
pub struct ClassView {
    pub version: (u16, u16),
    pub constant_pool: Seq<ConstantView>,
    pub accessflag: u16,
    pub this_class: u16,
    pub super_class: u16,
    pub interfaces: Seq<Interfaces>,
    pub fields: Seq<Fields>,
    pub methods: Seq<MethodView>,
    pub classattributes: Seq<AttributeView>,
}

impl DeepView for class {
    type V = ClassView;

    open spec fn deep_view(&self) -> ClassView {
        ClassView {
            version: self.version,
            constant_pool: self.constant_pool.deep_view(),
            accessflag: self.accessflag,
            this_class: self.this_class,
            super_class: self.super_class,
            interfaces: self.interfaces@,
            fields: self.fields@,
            methods: self.methods.deep_view(),
            classattributes: attributes_view(self.classattributes@),
        }
    }
}

/// One method read at `p`: access flags, name index, descriptor index, attribute count
/// (big-endian `u16`s), then that many attributes.
pub open spec fn spec_method(s: Seq<u8>, p: int, cp: Seq<ConstantView>) -> Result<
    (MethodView, int),
    ClassError,
> {
    match (u16_at(s, p), u16_at(s, p + 2), u16_at(s, p + 4), u16_at(s, p + 6)) {
        (Some(access_flag), Some(name_index), Some(descriptor_index), Some(attributes_count)) => {
            match spec_get_atributes(s, p + 8, attributes_count, cp) {
                Err(e) => Err(e),
                Ok((attributes, q)) => Ok(
                    (
                        MethodView {
                            access_flag,
                            name_index,
                            descriptor_index,
                            attributes_count,
                            attributes,
                        },
                        q,
                    ),
                ),
            }
        },
        _ => Err(ClassError::UnexpectedEof),
    }
}

/// `n` methods read one after another from `p`.
pub open spec fn spec_methods(s: Seq<u8>, p: int, n: nat, cp: Seq<ConstantView>) -> Result<
    (Seq<MethodView>, int),
    ClassError,
>
    decreases n,
{
    if n == 0 {
        Ok((Seq::empty(), p))
    } else {
        match spec_method(s, p, cp) {
            Err(e) => Err(e),
            Ok((m, q)) => match spec_methods(s, q, (n - 1) as nat, cp) {
                Err(e) => Err(e),
                Ok((rest, r)) => Ok((seq![m] + rest, r)),
            },
        }
    }
}

/// The class that the bytes of a class file hold: the magic number `0xCAFEBABE`, minor
/// and major version, the constant pool, access flags, this class, super class, an
/// interface count and a field count that must both be zero, the methods and the class
/// attributes, with nothing after them.
pub open spec fn spec_load_class(s: Seq<u8>) -> Result<ClassView, ClassError> {
    match u32_at(s, 0) {
        None => Err(ClassError::UnexpectedEof),
        Some(magic) => if magic != 0xCAFEBABE {
            Err(ClassError::BadMagic)
        } else {
            match (u16_at(s, 4), u16_at(s, 6), u16_at(s, 8)) {
                (Some(minor), Some(major), Some(cp_count)) => match spec_constant_pool(
                    s,
                    10,
                    cp_count,
                ) {
                    Err(e) => Err(e),
                    Ok((cp, p)) => spec_class_rest(s, p, (major, minor), cp),
                },
                _ => Err(ClassError::UnexpectedEof),
            }
        },
    }
}

/// The part of a class file after its constant pool `cp`, read from `p`.
pub open spec fn spec_class_rest(
    s: Seq<u8>,
    p: int,
    version: (u16, u16),
    cp: Seq<ConstantView>,
) -> Result<ClassView, ClassError> {
    match (u16_at(s, p), u16_at(s, p + 2), u16_at(s, p + 4), u16_at(s, p + 6)) {
        (Some(accessflag), Some(this_class), Some(super_class), Some(interface_count)) => if interface_count
            != 0 {
            Err(ClassError::InterfacesUnsupported)
        } else {
            match u16_at(s, p + 8) {
                None => Err(ClassError::UnexpectedEof),
                Some(field_count) => if field_count != 0 {
                    Err(ClassError::FieldsUnsupported)
                } else {
                    match u16_at(s, p + 10) {
                        None => Err(ClassError::UnexpectedEof),
                        Some(method_count) => match spec_methods(s, p + 12, method_count as nat, cp) {
                            Err(e) => Err(e),
                            Ok((methods, q)) => match u16_at(s, q) {
                                None => Err(ClassError::UnexpectedEof),
                                Some(attribute_count) => match spec_get_atributes(
                                    s,
                                    q + 2,
                                    attribute_count,
                                    cp,
                                ) {
                                    Err(e) => Err(e),
                                    Ok((classattributes, r)) => if r == s.len() {
                                        Ok(
                                            ClassView {
                                                version,
                                                constant_pool: cp,
                                                accessflag,
                                                this_class,
                                                super_class,
                                                interfaces: Seq::empty(),
                                                fields: Seq::empty(),
                                                methods,
                                                classattributes,
                                            },
                                        )
                                    } else {
                                        Err(ClassError::TrailingBytes)
                                    },
                                },
                            },
                        },
                    }
                },
            }
        },
        _ => Err(ClassError::UnexpectedEof),
    }
}

/// A method read at `p` ends after `p`, within the input, and reads the same when more
/// bytes follow the input.
proof fn lemma_method_prefix(s: Seq<u8>, t: Seq<u8>, p: int, cp: Seq<ConstantView>)
    requires
        0 <= p,
        spec_method(s, p, cp) is Ok,
    ensures
        spec_method(s + t, p, cp) == spec_method(s, p, cp),
        spec_method(s, p, cp) matches Ok((_, q)) ==> p < q <= s.len(),
{
    lemma_u16_prefix(s, t, p);
    lemma_u16_prefix(s, t, p + 2);
    lemma_u16_prefix(s, t, p + 4);
    lemma_u16_prefix(s, t, p + 6);
    let ac = u16_at(s, p + 6).unwrap();
    lemma_attribute_list_prefix(s, t, p + 8, ac as nat, ac, cp);
    lemma_attribute_list_advances(s, p + 8, ac as nat, ac, cp);
}

/// Methods that read from `s` at `p` read the same when more bytes follow `s`, and end
/// within `s`.
proof fn lemma_methods_prefix(s: Seq<u8>, t: Seq<u8>, p: int, n: nat, cp: Seq<ConstantView>)
    requires
        0 <= p <= s.len(),
        spec_methods(s, p, n, cp) is Ok,
    ensures
        spec_methods(s + t, p, n, cp) == spec_methods(s, p, n, cp),
        spec_methods(s, p, n, cp) matches Ok((_, q)) ==> p <= q <= s.len(),
    decreases n,
{
    if n > 0 {
        lemma_method_prefix(s, t, p, cp);
        if let Ok((_, q)) = spec_method(s, p, cp) {
            lemma_methods_prefix(s, t, q, (n - 1) as nat, cp);
        }
    }
}

/// A class file with more bytes after its end is refused for them: every part reads
/// the same, and then bytes are left over.
pub proof fn lemma_load_class_refuses_trailing_bytes(s: Seq<u8>, t: Seq<u8>)
    requires
        spec_load_class(s) is Ok,
        t.len() > 0,
    ensures
        spec_load_class(s + t) == Err::<ClassView, ClassError>(ClassError::TrailingBytes),
{
    let st = s + t;
    lemma_u32_prefix(s, t, 0);
    lemma_u16_prefix(s, t, 4);
    lemma_u16_prefix(s, t, 6);
    lemma_u16_prefix(s, t, 8);
    let cpc = u16_at(s, 8).unwrap();
    lemma_cp_entries_prefix(s, t, 10, (cpc - 1) as nat);
    lemma_cp_entries_len(s, 10, (cpc - 1) as nat);
    let (cp, p) = spec_constant_pool(s, 10, cpc).unwrap();
    lemma_u16_prefix(s, t, p);
    lemma_u16_prefix(s, t, p + 2);
    lemma_u16_prefix(s, t, p + 4);
    lemma_u16_prefix(s, t, p + 6);
    lemma_u16_prefix(s, t, p + 8);
    lemma_u16_prefix(s, t, p + 10);
    let mc = u16_at(s, p + 10).unwrap();
    lemma_methods_prefix(s, t, p + 12, mc as nat, cp);
    let (_, q) = spec_methods(s, p + 12, mc as nat, cp).unwrap();
    lemma_u16_prefix(s, t, q);
    let ac = u16_at(s, q).unwrap();
    lemma_attribute_list_prefix(s, t, q + 2, ac as nat, ac, cp);
}

/// A method read at `p` holds the four big-endian numbers at the start of its entry,
/// in order: access flags, name index, descriptor index, attribute count; it has as
/// many attributes as that count says, and they follow those eight bytes.
pub proof fn lemma_method_fields(s: Seq<u8>, p: int, cp: Seq<ConstantView>)
    requires
        0 <= p,
    ensures
        spec_method(s, p, cp) matches Ok((m, q)) ==> {
            &&& m.access_flag == be_u16(s, p)
            &&& m.name_index == be_u16(s, p + 2)
            &&& m.descriptor_index == be_u16(s, p + 4)
            &&& m.attributes_count == be_u16(s, p + 6)
            &&& m.attributes.len() == m.attributes_count
            &&& p + 8 <= q <= s.len()
        },
{
    if let Ok((m, q)) = spec_method(s, p, cp) {
        let ac = be_u16(s, p + 6);
        lemma_attribute_list_len(s, p + 8, ac as nat, ac, cp);
        lemma_attribute_list_advances(s, p + 8, ac as nat, ac, cp);
    }
}

/// Methods read one after another: as many as asked, each with as many attributes as
/// its attribute count says.
pub proof fn lemma_methods_attribute_counts(s: Seq<u8>, p: int, n: nat, cp: Seq<ConstantView>)
    requires
        0 <= p,
    ensures
        spec_methods(s, p, n, cp) matches Ok((ms, _)) ==> {
            &&& ms.len() == n
            &&& forall|i: int| 0 <= i < ms.len() ==> (#[trigger] ms[i]).attributes.len() == ms[i].attributes_count
        },
    decreases n,
{
    if n > 0 {
        lemma_method_fields(s, p, cp);
        if let Ok((m, q)) = spec_method(s, p, cp) {
            lemma_methods_attribute_counts(s, q, (n - 1) as nat, cp);
            if let Ok((rest, _)) = spec_methods(s, q, (n - 1) as nat, cp) {
                let ms = seq![m] + rest;
                assert forall|i: int| 0 <= i < ms.len() implies (#[trigger] ms[i]).attributes.len()
                    == ms[i].attributes_count by {
                    if i > 0 {
                        assert(ms[i] == rest[i - 1]);
                    }
                }
            }
        }
    }
}

/// Every method of a loaded class has as many attributes as its attribute count says.
pub proof fn lemma_loaded_method_attribute_counts(s: Seq<u8>)
    ensures
        spec_load_class(s) matches Ok(c) ==> forall|i: int|
            0 <= i < c.methods.len() ==> (#[trigger] c.methods[i]).attributes.len()
                == c.methods[i].attributes_count,
{
    if let Ok(c) = spec_load_class(s) {
        let cpc = u16_at(s, 8).unwrap();
        let (cp, p) = spec_constant_pool(s, 10, cpc).unwrap();
        let mc = u16_at(s, p + 10).unwrap();
        lemma_cp_entries_len(s, 10, (cpc - 1) as nat);
        lemma_methods_attribute_counts(s, p + 12, mc as nat, cp);
    }
}

/// Reads `n` methods from the reader's position.
fn read_methods(n: u16, reader: &mut ByteReader, cp: &Vec<ConstantPoolTags>) -> (r: Result<
    Vec<method_info>,
    ClassError,
>)
    ensures
        final(reader).data() == old(reader).data(),
        match r {
            Ok(ms) => spec_methods(old(reader).data(), old(reader).pos(), n as nat, cp.deep_view())
                == Ok::<(Seq<MethodView>, int), ClassError>((ms.deep_view(), final(reader).pos())),
            Err(e) => spec_methods(old(reader).data(), old(reader).pos(), n as nat, cp.deep_view())
                == Err::<(Seq<MethodView>, int), ClassError>(e),
        },
{
    let ghost s = reader.data();
    let ghost p0 = reader.pos();
    let ghost cpv = cp.deep_view();
    let mut methods: Vec<method_info> = Vec::new();
    let mut i: u16 = 0;
    while i < n
        invariant
            i <= n,
            reader.data() == s,
            s == old(reader).data(),
            p0 == old(reader).pos(),
            cpv == cp.deep_view(),
            spec_methods(s, p0, n as nat, cpv) == (match spec_methods(
                s,
                reader.pos(),
                (n - i) as nat,
                cpv,
            ) {
                Err(e) => Err(e),
                Ok((rest, r)) => Ok((methods.deep_view() + rest, r)),
            }),
        decreases n - i,
    {
        let ghost p = reader.pos();
        let access_flag = match reader.read_u16() {
            Some(v) => v,
            None => return Err(ClassError::UnexpectedEof),
        };
        let name_index = match reader.read_u16() {
            Some(v) => v,
            None => return Err(ClassError::UnexpectedEof),
        };
        let descriptor_index = match reader.read_u16() {
            Some(v) => v,
            None => return Err(ClassError::UnexpectedEof),
        };
        let attributes_count = match reader.read_u16() {
            Some(v) => v,
            None => return Err(ClassError::UnexpectedEof),
        };
        let attributes = match try_get_atributes(attributes_count, reader, cp) {
            Ok(a) => a,
            Err(e) => return Err(e),
        };
        let m = method_info { access_flag, name_index, descriptor_index, attributes_count, attributes };
        let ghost mv = m.deep_view();
        let ghost before = methods.deep_view();
        methods.push(m);
        assert(methods.deep_view() =~= before.push(mv));
        proof {
            match spec_methods(s, reader.pos(), (n - i - 1) as nat, cpv) {
                Err(_) => {},
                Ok((rest, _)) => {
                    assert(before + (seq![mv] + rest) =~= before.push(mv) + rest);
                },
            }
        }
        i = i + 1;
    }
    assert(methods.deep_view() + Seq::<MethodView>::empty() =~= methods.deep_view());
    Ok(methods)
}

/// Loads the class that the bytes of a class file hold; refuses, with the reason, what
/// `load_class` does not take (see `spec_load_class`).
pub fn try_load_class(classfile: Vec<u8>) -> (r: Result<class, ClassError>)
    ensures
        match r {
            Ok(c) => spec_load_class(classfile@) == Ok::<ClassView, ClassError>(c.deep_view()),
            Err(e) => spec_load_class(classfile@) == Err::<ClassView, ClassError>(e),
        },
{
    let ghost s = classfile@;
    let mut reader = ByteReader::new(classfile);
    let magic = match reader.read_u32() {
        Some(v) => v,
        None => return Err(ClassError::UnexpectedEof),
    };
    if magic != 0xCAFEBABE {
        return Err(ClassError::BadMagic);
    }
    let minor = match reader.read_u16() {
        Some(v) => v,
        None => return Err(ClassError::UnexpectedEof),
    };
    let major = match reader.read_u16() {
        Some(v) => v,
        None => return Err(ClassError::UnexpectedEof),
    };
    let constant_pool_count = match reader.read_u16() {
        Some(v) => v,
        None => return Err(ClassError::UnexpectedEof),
    };
    let constant_pool = match try_get_constant_pool(constant_pool_count, &mut reader) {
        Ok(cp) => cp,
        Err(e) => return Err(e),
    };
    let ghost p = reader.pos();
    let accessflag = match reader.read_u16() {
        Some(v) => v,
        None => return Err(ClassError::UnexpectedEof),
    };
    let this_class = match reader.read_u16() {
        Some(v) => v,
        None => return Err(ClassError::UnexpectedEof),
    };
    let super_class = match reader.read_u16() {
        Some(v) => v,
        None => return Err(ClassError::UnexpectedEof),
    };
    let interface_count = match reader.read_u16() {
        Some(v) => v,
        None => return Err(ClassError::UnexpectedEof),
    };
    if interface_count != 0 {
        return Err(ClassError::InterfacesUnsupported);
    }
    let field_count = match reader.read_u16() {
        Some(v) => v,
        None => return Err(ClassError::UnexpectedEof),
    };
    if field_count != 0 {
        return Err(ClassError::FieldsUnsupported);
    }
    let method_count = match reader.read_u16() {
        Some(v) => v,
        None => return Err(ClassError::UnexpectedEof),
    };
    let methods = match read_methods(method_count, &mut reader, &constant_pool) {
        Ok(m) => m,
        Err(e) => return Err(e),
    };
    let attribute_count = match reader.read_u16() {
        Some(v) => v,
        None => return Err(ClassError::UnexpectedEof),
    };
    let classattributes = match try_get_atributes(attribute_count, &mut reader, &constant_pool) {
        Ok(a) => a,
        Err(e) => return Err(e),
    };
    if reader.position() != reader.bytes().len() {
        return Err(ClassError::TrailingBytes);
    }
    let interfaces: Vec<Interfaces> = Vec::new();
    let fields: Vec<Fields> = Vec::new();
    let c = class {
        version: (major, minor),
        constant_pool,
        accessflag,
        this_class,
        super_class,
        interfaces,
        fields,
        methods,
        classattributes,
    };
    assert(c.deep_view().interfaces =~= Seq::<Interfaces>::empty());
    assert(c.deep_view().fields =~= Seq::<Fields>::empty());
    Ok(c)
}

/// Loads each class file of `class_files` in turn. Stops at the first that is refused,
/// and returns its position in the list with the reason.
pub fn try_load_classes(class_files: &Vec<Vec<u8>>) -> (r: Result<Vec<class>, (usize, ClassError)>)
    ensures
        match r {
            Ok(classes) => classes@.len() == class_files@.len() && forall|i: int|
                0 <= i < class_files@.len() ==> spec_load_class(#[trigger] class_files@[i]@)
                    == Ok::<ClassView, ClassError>(classes@[i].deep_view()),
            Err((k, e)) => k < class_files@.len() && spec_load_class(class_files@[k as int]@)
                == Err::<ClassView, ClassError>(e) && forall|i: int|
                0 <= i < k ==> spec_load_class(#[trigger] class_files@[i]@) is Ok,
        },
{
    let mut classes: Vec<class> = Vec::new();
    let mut i: usize = 0;
    while i < class_files.len()
        invariant
            i <= class_files@.len(),
            classes@.len() == i,
            forall|j: int|
                0 <= j < i ==> spec_load_class(#[trigger] class_files@[j]@) == Ok::<
                    ClassView,
                    ClassError,
                >(classes@[j].deep_view()),
        decreases class_files@.len() - i,
    {
        let file = &class_files[i];
        let bytes = match copy_bytes(file.as_slice(), 0, file.len()) {
            Some(b) => b,
            None => return Err((i, ClassError::UnexpectedEof)),
        };
        assert(bytes@ =~= class_files@[i as int]@);
        match try_load_class(bytes) {
            Ok(c) => {
                classes.push(c);
            },
            Err(e) => {
                return Err((i, e));
            },
        }
        i = i + 1;
    }
    Ok(classes)
}


/// Loads the class that the bytes of a class file hold. The file must be one that
/// loads (see `spec_load_class`; `try_load_class` checks it): the magic number, a
/// readable constant pool, no interfaces, no fields, readable methods and attributes,
/// and nothing after them.
pub fn load_class(classfile: Vec<u8>) -> (r: class)
    requires
        spec_load_class(classfile@) is Ok,
    ensures
        spec_load_class(classfile@) == Ok::<ClassView, ClassError>(r.deep_view()),
{
    match try_load_class(classfile) {
        Ok(c) => c,
        Err(_) => class {
            version: (0, 0),
            constant_pool: Vec::new(),
            accessflag: 0,
            this_class: 0,
            super_class: 0,
            interfaces: Vec::new(),
            fields: Vec::new(),
            methods: Vec::new(),
            classattributes: Vec::new(),
        },
    }
}

/// Loads each class file of `class_files`, in order. Every file must be one that
/// loads (`try_load_classes` checks them).
pub fn load_classes(class_files: &Vec<Vec<u8>>) -> (r: Vec<class>)
    requires
        forall|i: int| 0 <= i < class_files@.len() ==> spec_load_class(#[trigger] class_files@[i]@) is Ok,
    ensures
        r@.len() == class_files@.len(),
        forall|i: int|
            0 <= i < class_files@.len() ==> spec_load_class(#[trigger] class_files@[i]@) == Ok::<
                ClassView,
                ClassError,
            >(r@[i].deep_view()),
{
    match try_load_classes(class_files) {
        Ok(classes) => classes,
        Err(_) => Vec::new(),
    }
}

impl Clone for class {
    /// A copy with the same value.
    fn clone(&self) -> (r: Self)
        ensures
            r.deep_view() == self.deep_view(),
    {
        let mut methods: Vec<method_info> = Vec::new();
        let mut i: usize = 0;
        while i < self.methods.len()
            invariant
                i <= self.methods@.len(),
                methods.deep_view() =~= self.methods.deep_view().take(i as int),
            decreases self.methods@.len() - i,
        {
            let ghost before = methods.deep_view();
            methods.push(self.methods[i].clone());
            assert(methods.deep_view() =~= before.push(self.methods.deep_view()[i as int]));
            assert(self.methods.deep_view().take(i + 1) =~= self.methods.deep_view().take(
                i as int,
            ).push(self.methods.deep_view()[i as int]));
            i = i + 1;
        }
        assert(self.methods.deep_view().take(self.methods@.len() as int) =~= self.methods.deep_view());
        let mut interfaces: Vec<Interfaces> = Vec::new();
        let mut k: usize = 0;
        while k < self.interfaces.len()
            invariant
                k <= self.interfaces@.len(),
                interfaces@ =~= self.interfaces@.take(k as int),
            decreases self.interfaces@.len() - k,
        {
            interfaces.push(Interfaces {});
            assert(self.interfaces@.take(k + 1) =~= self.interfaces@.take(k as int).push(
                Interfaces {},
            ));
            k = k + 1;
        }
        assert(self.interfaces@.take(self.interfaces@.len() as int) =~= self.interfaces@);
        let mut fields: Vec<Fields> = Vec::new();
        let mut k: usize = 0;
        while k < self.fields.len()
            invariant
                k <= self.fields@.len(),
                fields@ =~= self.fields@.take(k as int),
            decreases self.fields@.len() - k,
        {
            fields.push(Fields {});
            assert(self.fields@.take(k + 1) =~= self.fields@.take(k as int).push(Fields {}));
            k = k + 1;
        }
        assert(self.fields@.take(self.fields@.len() as int) =~= self.fields@);
        let r = class {
            version: self.version,
            constant_pool: clone_constants(&self.constant_pool),
            accessflag: self.accessflag,
            this_class: self.this_class,
            super_class: self.super_class,
            interfaces,
            fields,
            methods,
            classattributes: clone_attributes(&self.classattributes),
        };
        assert(r.deep_view().interfaces =~= self.deep_view().interfaces);
        assert(r.deep_view().fields =~= self.deep_view().fields);
        r
    }
}

} // verus!
