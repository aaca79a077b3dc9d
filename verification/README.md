# yudao_scaffold

The engine of a desktop scaffolder for yudao projects (`ruoyi-vue-pro`,
`yudao-cloud` and their front ends), written in Verus.

- `src/` is the verified library. Texts are modelled as `Seq<char>`; each
  edit of a configuration file (`pom.xml`, Spring YAML profiles,
  Dockerfiles, SQL scripts) is a function from the old text to the new one,
  specified by spec functions over the file's lines. The catalog of modules,
  templates and front ends, the microservice port plan, the choice of
  download addresses and the checks on the output directory are verified
  functions as well. Proof functions named `lemma_*_read_back` and the other
  public lemmas state the laws that hold across calls.
- `app/` is the shell around it: the commands the window calls, the
  downloads (`reqwest`), archive extraction (`zip`), file system work and
  JSON (`serde_json`).
- `tests/` runs the library on concrete inputs.

The super administrator's password is hashed with `bcrypt`, called from the
library through one trusted wrapper whose contract states the shape of the
hash.
