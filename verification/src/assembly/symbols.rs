//! The assembler's symbol table: predefined names, code labels and variables.
use vstd::prelude::*;
use vstd::hash_map::StringHashMap;
use vstd::string::*;

verus! {

/// Why assembling a program can fail.
pub enum Fault {
    /// A label is declared although the table already holds its name.
    DuplicateLabel(Seq<char>),
    /// The program counter cannot advance past the last 16-bit address.
    ProgramTooLarge,
    /// The variable counter cannot advance past the last 16-bit address.
    TooManyVariables,
}

impl Fault {
    /// The text that reports this fault.
    pub open spec fn message(self) -> Seq<char> {
        match self {
            Fault::DuplicateLabel(name) => "Key '"@ + name + "' already exists"@,
            Fault::ProgramTooLarge => "Program exceeds the 16-bit instruction counter"@,
            Fault::TooManyVariables => "Variables exceed the 16-bit address counter"@,
        }
    }
}

/// The address of the first variable.
pub const FIRST_VARIABLE: u16 = 16;

/// The mathematical symbol table: a map from names to addresses, and the
/// address that the next variable will get.
pub struct Symbols {
    pub table: Map<Seq<char>, u16>,
    pub next: u16,
}

impl Symbols {
    /// The table before assembly: the predefined symbols, and 16 as the first
    /// variable address.
    pub open spec fn predefined() -> Symbols {
        Symbols {
            table: Map::<Seq<char>, u16>::empty().insert("SP"@, 0).insert("LCL"@, 1).insert(
                "ARG"@,
                2,
            ).insert("THIS"@, 3).insert("THAT"@, 4).insert("R0"@, 0).insert("R1"@, 1).insert(
                "R2"@,
                2,
            ).insert("R3"@, 3).insert("R4"@, 4).insert("R5"@, 5).insert("R6"@, 6).insert(
                "R7"@,
                7,
            ).insert("R8"@, 8).insert("R9"@, 9).insert("R10"@, 10).insert("R11"@, 11).insert(
                "R12"@,
                12,
            ).insert("R13"@, 13).insert("R14"@, 14).insert("R15"@, 15).insert(
                "SCREEN"@,
                0x4000,
            ).insert("KBD"@, 0x6000),
            next: FIRST_VARIABLE,
        }
    }

    /// Declaring a code label: the name must be new, and the variable counter stays.
    pub open spec fn declare(self, name: Seq<char>, address: u16) -> Result<Symbols, Fault> {
        if self.table.contains_key(name) {
            Err(Fault::DuplicateLabel(name))
        } else {
            Ok(Symbols { table: self.table.insert(name, address), next: self.next })
        }
    }

    /// Resolving a name: a known name keeps its address and the table; an
    /// unknown one becomes a variable at the next free address.
    pub open spec fn resolve(self, name: Seq<char>) -> Result<(Symbols, u16), Fault> {
        if self.table.contains_key(name) {
            Ok((self, self.table[name]))
        } else if self.next == u16::MAX {
            Err(Fault::TooManyVariables)
        } else {
            Ok(
                (
                    Symbols {
                        table: self.table.insert(name, self.next),
                        next: (self.next + 1) as u16,
                    },
                    self.next,
                ),
            )
        }
    }
}

/// The executable symbol table: a hash map from names to addresses, and
/// the address of the next variable. Its value is a [`Symbols`].
pub struct LabelStore {
    labels: StringHashMap<u16>,
    nextindex: u16,
}

impl View for LabelStore {
    type V = Symbols;

    closed spec fn view(&self) -> Symbols {
        Symbols { table: self.labels@, next: self.nextindex }
    }
}

impl LabelStore {
    /// Binds `key` to `value`, whether or not the table holds it already.
    fn put(&mut self, key: &str, value: u16)
        ensures
            final(self)@.table == old(self)@.table.insert(key@, value),
            final(self)@.next == old(self)@.next,
    {
        self.labels.insert(String::from_str(key), value);
    }

    /// A table that holds the predefined symbols and no others.
    pub fn new() -> (r: LabelStore)
        ensures
            r@ == Symbols::predefined(),
    {
        let mut ls = LabelStore { labels: StringHashMap::new(), nextindex: FIRST_VARIABLE };
        ls.put("SP", 0);
        ls.put("LCL", 1);
        ls.put("ARG", 2);
        ls.put("THIS", 3);
        ls.put("THAT", 4);
        ls.put("R0", 0);
        ls.put("R1", 1);
        ls.put("R2", 2);
        ls.put("R3", 3);
        ls.put("R4", 4);
        ls.put("R5", 5);
        ls.put("R6", 6);
        ls.put("R7", 7);
        ls.put("R8", 8);
        ls.put("R9", 9);
        ls.put("R10", 10);
        ls.put("R11", 11);
        ls.put("R12", 12);
        ls.put("R13", 13);
        ls.put("R14", 14);
        ls.put("R15", 15);
        ls.put("SCREEN", 0x4000);
        ls.put("KBD", 0x6000);
        ls
    }

    /// The address bound to `key`, if there is one. The table is left as it is.
    pub fn lookup(&self, key: &str) -> (r: Option<u16>)
        ensures
            r == (if self@.table.contains_key(key@) {
                Some(self@.table[key@])
            } else {
                None
            }),
    {
        match self.labels.get(key) {
            Some(address) => Some(*address),
            None => None,
        }
    }

    /// The address that the next variable will get.
    pub fn next_variable(&self) -> (r: u16)
        ensures
            r == self@.next,
    {
        self.nextindex
    }

    /// Resolves `key`, allocating a variable for it if the table does not hold it.
    pub fn get(&mut self, key: &str) -> (r: Result<u16, String>)
        ensures
            match r {
                Ok(address) => old(self)@.resolve(key@) == Ok::<(Symbols, u16), Fault>(
                    (final(self)@, address),
                ),
                Err(text) => final(self)@ == old(self)@ && (old(self)@.resolve(key@) matches Err(fault)
                    && text@ == fault.message()),
            },
    {
        match self.lookup(key) {
            Some(address) => Ok(address),
            None => {
                if self.nextindex == u16::MAX {
                    return Err(String::from_str("Variables exceed the 16-bit address counter"));
                }
                let address: u16 = self.nextindex;
                self.labels.insert(String::from_str(key), address);
                self.nextindex = address + 1;
                Ok(address)
            },
        }
    }

    /// Declares the code label `key` at `value`. A name that the table holds is refused.
    pub fn insert(&mut self, key: &str, value: u16) -> (r: Result<(), String>)
        ensures
            match r {
                Ok(_) => old(self)@.declare(key@, value) == Ok::<Symbols, Fault>(final(self)@),
                Err(text) => final(self)@ == old(self)@ && (old(self)@.declare(key@, value) matches Err(
                    fault,
                ) && text@ == fault.message()),
            },
    {
        if self.labels.contains_key(key) {
            let mut text: String = String::from_str("Key '");
            text.append(key);
            text.append("' already exists");
            Err(text)
        } else {
            self.labels.insert(String::from_str(key), value);
            Ok(())
        }
    }
}

} // verus!
