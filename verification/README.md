# move_signature_checker

Checks the signatures of a compiled Move module: the types of function parameters, return values,
local variables and fields, and the type arguments of generic instructions.

- References occur only around the whole of a type, and not at all in the types of fields or in
  type arguments of instructions.
- Generic structs, enums and functions are given as many type arguments as they declare, and each
  has the abilities that are asked of it. The abilities come from an `AbilityCache`.
- Phantom type parameters are used only in phantom position.

`SignatureChecker::verify_module` is the entry. `verify_module_with_answers` checks a module
against a prepared list of answers of an ability cache.

## Layout

| module | holds |
|---|---|
| `text`, `errors`, `abilities`, `file_format` | the data, and how messages write it |
| `ability_cache` | where abilities come from |
| `plan` | a check as a list of steps, and what comes of carrying it out |
| `module_plan` | the steps of the check of a module |
| `checked`, `signature` | the code, proved to carry out those steps |
| `ruling`, `well_formed`, `acceptance`, `bounds`, `causes` | what the steps amount to |
| `part_laws` | what holds of the parts of every check |
| `laws` | what holds of every check of a module |
