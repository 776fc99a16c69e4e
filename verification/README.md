# spm

A large-file-aware builder of Linux packages (RPM and DEB), written in Verus.

`src/` is the verified library. Each public function states in its contract
what it returns or changes, over spec functions and views; the laws that
relate several functions are public proof functions whose names start with
`law_`. The library covers:

- the configuration model and its validation (`config`), dependency rules
  (`deps`), target distributions (`distro`), sizes and names (`types`);
- the file tree: what each file mapping makes of the files it matches
  (`mapping`), implicit directories and the sorted, de-duplicated tree
  (`filetree`), path components (`paths`);
- planning and splitting (`planner`), alternatives scriptlets
  (`alternatives`), the `spm plan` report (`report`), command-line choices
  (`cli`);
- the archive formats: CPIO (`cpio`), ar (`deb::ar`), the RPM lead and
  header sections (`rpm::lead`, `rpm::header`), the RPM metadata and
  signature headers (`rpm::builder`, `rpm::signature`), the DEB control
  members (`deb::builder`, `deb::control`);
- reading packages back: RPM header sections (`rpm::reader`,
  `rpm::readback`) and DEB control files, `control.tar` members and ar
  headers (`deb::reader`);
- streamed digests of files and payloads (`hashing`), glob matching of
  walked paths (`filetree`) and environment expansion of the configuration
  text (`config`), each through a small trusted wrapper around the outside
  crate that does the work.

`app/` is the command-line program around the library: argument parsing,
reading `spm.yaml` and the environment, walking the disk, opening files,
streaming them through the compressors, writing the package files and
progress output.

`tests/` exercises the library on concrete values.
